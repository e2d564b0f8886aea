//! The time of day, and the directory names made from it.

use vstd::prelude::*;
use vstd::string::*;

verus! {

/// A moment: whole seconds since the start of 1970, UTC, and the nanoseconds
/// since the last whole second.
#[derive(Clone, Copy, Debug)]
pub struct Moment {
    pub secs: i64,
    pub nanos: u32,
}

/// How a moment is written in a directory name: date, time and microseconds.
pub const STAMP_PATTERN: &'static str = "%Y_%m_%d_%H_%M_%S%.6f";

/// The last second that a calendar date can be given for, at the end of the year
/// 262142.
pub const LAST_SECOND: i64 = 8210266876799;

/// Whether a moment lies between 1970 and [`LAST_SECOND`].
pub open spec fn is_moment(m: Moment) -> bool {
    0 <= m.secs <= LAST_SECOND && m.nanos < 1_000_000_000
}

/// The text that the UTC date and time of `secs` and `nanos` has in a pattern of
/// `strftime` specifiers.
pub uninterp spec fn utc_text(secs: i64, nanos: u32, pattern: Seq<char>) -> Seq<char>;

/// Whether a character can occur in a stamp: a digit, a separator, or the sign
/// of a year of more than four digits.
pub open spec fn is_stamp_char(c: char) -> bool {
    ('0' <= c && c <= '9') || c == '_' || c == '.' || c == '+'
}

/// Reads the clock through `chrono::Utc::now`. Claimed is that the moment lies in
/// the range of chrono's calendar and is not inside a leap second. The outside
/// function panics while the clock shows a time before 1970; no argument can rule
/// that out.
#[verifier::external_body]
pub(crate) fn utc_now() -> (result: Moment)
    ensures
        is_moment(result),
{
    let now = chrono::Utc::now();
    Moment { secs: now.timestamp(), nanos: now.timestamp_subsec_nanos() }
}

/// Writes a moment through `chrono::DateTime::format`. Claimed is that the text is
/// a function of the moment and the pattern; that for [`STAMP_PATTERN`] it is not
/// empty, begins with the year's first digit or sign and holds digits, separators
/// and signs only; and that it tells apart any two moments that differ in their
/// microsecond.
#[verifier::external_body]
fn format_utc(secs: i64, nanos: u32, pattern: &str) -> (result: String)
    requires
        is_moment((Moment { secs, nanos })),
        pattern@ == STAMP_PATTERN@,
    ensures
        result@ == utc_text(secs, nanos, pattern@),
        result@.len() > 0,
        result@[0] == '+' || ('0' <= result@[0] && result@[0] <= '9'),
        forall|i: int| 0 <= i < result@.len() ==> is_stamp_char(#[trigger] result@[i]),
        forall|s: i64, n: u32|
            is_moment((Moment { secs: s, nanos: n })) && #[trigger] utc_text(s, n, pattern@)
                == result@ ==> s == secs && n / 1000 == nanos / 1000,
{
    chrono::DateTime::<chrono::Utc>::from_timestamp(secs, nanos).unwrap().format(pattern).to_string()
}

/// The name of the directory that a changeset of the moment `m` is received into.
pub open spec fn stamp_dir_of(m: Moment) -> Seq<char> {
    ".."@ + utc_text(m.secs, m.nanos, STAMP_PATTERN@)
}

/// Whether `name` has the form of such a name: two dots, a digit or a sign, and
/// nothing but stamp characters after it.
pub open spec fn is_stamp_dir(name: Seq<char>) -> bool {
    &&& name.len() > 2
    &&& name[0] == '.'
    &&& name[1] == '.'
    &&& name[2] == '+' || ('0' <= name[2] && name[2] <= '9')
    &&& forall|i: int| 0 <= i < name.len() ==> is_stamp_char(#[trigger] name[i])
}

/// Names the directory for a changeset of the moment `m`. Moments that differ in
/// their microsecond get different names.
pub fn stamp_dir_name(m: Moment) -> (result: String)
    requires
        is_moment(m),
    ensures
        result@ == stamp_dir_of(m),
        is_stamp_dir(result@),
        forall|other: Moment|
            is_moment(other) && #[trigger] stamp_dir_of(other) == result@ ==> other.secs == m.secs
                && other.nanos / 1000 == m.nanos / 1000,
{
    let text = format_utc(m.secs, m.nanos, STAMP_PATTERN);
    let ghost stamp = text@;
    let result = "..".to_owned().concat(text.as_str());
    proof {
        reveal_strlit("..");
        assert(result@ =~= seq!['.', '.'] + stamp);
        assert forall|i: int| 0 <= i < result@.len() implies is_stamp_char(
            #[trigger] result@[i],
        ) by {
            if i >= 2 {
                assert(result@[i] == stamp[i - 2]);
            }
        }
        assert forall|other: Moment|
            is_moment(other) && #[trigger] stamp_dir_of(other) == result@ implies other.secs
            == m.secs && other.nanos / 1000 == m.nanos / 1000 by {
            let theirs = utc_text(other.secs, other.nanos, STAMP_PATTERN@);
            assert(stamp_dir_of(other).skip(2) =~= theirs);
            assert(result@.skip(2) =~= stamp);
            assert(is_moment((Moment { secs: other.secs, nanos: other.nanos })));
        }
    }
    result
}

/// A stamped directory bears two dots and the date, time and microseconds of its
/// moment; every moment from 1970 to the end of the calendar can be stamped.
pub proof fn law_stamp_is_date_and_time(m: Moment)
    ensures
        stamp_dir_of(m) == ".."@ + utc_text(m.secs, m.nanos, "%Y_%m_%d_%H_%M_%S%.6f"@),
        is_moment(m) <==> 0 <= m.secs && m.secs <= 8210266876799 && m.nanos < 1_000_000_000,
{
}

} // verus!
