//! Slash-separated paths: the directory part, the file name, and joining.
//!
//! A path is read as a list of components between slashes. Empty components and
//! `.` components count for nothing, except a leading slash (the root) and a
//! leading `.` of a relative path, which anchor it.

use vstd::prelude::*;
use vstd::string::*;

verus! {

/// How many leading characters anchor the path and belong to no component:
/// one for the root slash or for a leading `.`, none otherwise.
pub open spec fn anchor_len(p: Seq<char>) -> int {
    if p.len() > 0 && p[0] == '/' {
        1
    } else if p.len() > 0 && p[0] == '.' && (p.len() == 1 || p[1] == '/') {
        1
    } else {
        0
    }
}

/// Where the last component of `p[base..end]` starts: after its last slash, or
/// at `base` when it holds none.
pub open spec fn component_start(p: Seq<char>, base: int, end: int) -> int
    decreases end - base,
{
    if end <= base {
        base
    } else if p[end - 1] == '/' {
        end
    } else {
        component_start(p, base, end - 1)
    }
}

/// Where `p[base..end]` ends once the component that starts at `start` and the
/// slash before it are cut off.
pub open spec fn cut(base: int, start: int) -> int {
    if start > base {
        start - 1
    } else {
        base
    }
}

/// Whether `p[start..end]` is a component that counts for nothing.
pub open spec fn is_void(p: Seq<char>, start: int, end: int) -> bool {
    start == end || (end == start + 1 && p[start] == '.')
}

/// Where `p[base..end]` ends once trailing void components are cut off.
pub open spec fn trimmed_end(p: Seq<char>, base: int, end: int) -> int
    decreases end - base,
    via trimmed_end_decreases
{
    if end <= base {
        base
    } else if is_void(p, component_start(p, base, end), end) {
        trimmed_end(p, base, cut(base, component_start(p, base, end)))
    } else {
        end
    }
}

#[via_fn]
proof fn trimmed_end_decreases(p: Seq<char>, base: int, end: int) {
    if base < end {
        lemma_component_start(p, base, end);
    }
}

/// The last component starts within the range and holds no slash.
proof fn lemma_component_start(p: Seq<char>, base: int, end: int)
    requires
        base <= end,
    ensures
        base <= component_start(p, base, end) <= end,
        forall|k: int| component_start(p, base, end) <= k < end ==> p[k] != '/',
        component_start(p, base, end) > base ==> p[component_start(p, base, end) - 1] == '/',
    decreases end - base,
{
    if base < end && p[end - 1] != '/' {
        lemma_component_start(p, base, end - 1);
    }
}

/// Trimming stays within the range, and what is left ends in a component that
/// counts.
proof fn lemma_trimmed_end(p: Seq<char>, base: int, end: int)
    requires
        base <= end,
    ensures
        base <= trimmed_end(p, base, end) <= end,
        trimmed_end(p, base, end) > base ==> !is_void(
            p,
            component_start(p, base, trimmed_end(p, base, end)),
            trimmed_end(p, base, end),
        ),
    decreases end - base,
{
    lemma_component_start(p, base, end);
    if base < end && is_void(p, component_start(p, base, end), end) {
        lemma_trimmed_end(p, base, cut(base, component_start(p, base, end)));
    }
}

/// The path without its last component: `None` for the root and for the empty
/// path.
pub open spec fn parent_of(p: Seq<char>) -> Option<Seq<char>> {
    let base = anchor_len(p);
    let end = trimmed_end(p, base, p.len() as int);
    if end > base {
        Some(p.take(trimmed_end(p, base, cut(base, component_start(p, base, end)))))
    } else if base == 1 && p[0] == '.' {
        Some(Seq::empty())
    } else {
        None
    }
}

/// The last component, when it names a file: `None` when there is none and when
/// it is `..`.
pub open spec fn file_name_of(p: Seq<char>) -> Option<Seq<char>> {
    let base = anchor_len(p);
    let end = trimmed_end(p, base, p.len() as int);
    let name = p.subrange(component_start(p, base, end), end);
    if end > base && name != seq!['.', '.'] {
        Some(name)
    } else {
        None
    }
}

/// `b` taken relative to `a`: an absolute `b` stands alone, otherwise one slash
/// separates the two.
pub open spec fn join_of(a: Seq<char>, b: Seq<char>) -> Seq<char> {
    if b.len() > 0 && b[0] == '/' {
        b
    } else if a.len() == 0 || a.last() == '/' {
        a + b
    } else {
        a + seq!['/'] + b
    }
}

/// The characters of a string.
fn chars_of(s: &str) -> (result: Vec<char>)
    ensures
        result@ == s@,
{
    let mut result: Vec<char> = Vec::new();
    for c in it: s.chars()
        invariant
            it.seq() == s@,
            result@ == s@.take(it.index()),
    {
        result.push(c);
    }
    assert(s@.take(s@.len() as int) == s@);
    result
}

/// Computes [`anchor_len`].
fn find_anchor(p: &Vec<char>) -> (result: usize)
    ensures
        result == anchor_len(p@),
{
    if p.len() > 0 && p[0] == '/' {
        1
    } else if p.len() > 0 && p[0] == '.' && (p.len() == 1 || p[1] == '/') {
        1
    } else {
        0
    }
}

/// Computes [`component_start`].
fn find_component(p: &Vec<char>, base: usize, end: usize) -> (result: usize)
    requires
        base <= end <= p@.len(),
    ensures
        result == component_start(p@, base as int, end as int),
        base <= result <= end,
{
    let mut at: usize = end;
    while base < at && p[at - 1] != '/'
        invariant
            base <= at <= end <= p@.len(),
            component_start(p@, base as int, at as int) == component_start(
                p@,
                base as int,
                end as int,
            ),
        decreases at,
    {
        at = at - 1;
    }
    at
}

/// Computes [`trimmed_end`].
fn find_end(p: &Vec<char>, base: usize, end: usize) -> (result: usize)
    requires
        base <= end <= p@.len(),
    ensures
        result == trimmed_end(p@, base as int, end as int),
        base <= result <= end,
{
    let mut at: usize = end;
    while base < at
        invariant
            base <= at <= end <= p@.len(),
            trimmed_end(p@, base as int, at as int) == trimmed_end(p@, base as int, end as int),
        decreases at,
    {
        let start = find_component(p, base, at);
        if start == at || (at == start + 1 && p[start] == '.') {
            at = if start > base {
                start - 1
            } else {
                base
            };
        } else {
            return at;
        }
    }
    at
}

/// The directory part of a path, as [`parent_of`] says.
pub fn parent(path: &str) -> (result: Option<String>)
    ensures
        match result {
            Some(d) => parent_of(path@) == Some(d@),
            None => parent_of(path@) is None,
        },
{
    let p = chars_of(path);
    let base = find_anchor(&p);
    let end = find_end(&p, base, p.len());
    if end > base {
        let start = find_component(&p, base, end);
        let rest = find_end(
            &p,
            base,
            if start > base {
                start - 1
            } else {
                base
            },
        );
        let result = path.substring_char(0, rest).to_owned();
        assert(result@ == path@.take(rest as int));
        Some(result)
    } else if base == 1 && p[0] == '.' {
        Some(String::new())
    } else {
        None
    }
}

/// The file name at the end of a path, as [`file_name_of`] says.
pub fn file_name(path: &str) -> (result: Option<String>)
    ensures
        match result {
            Some(n) => file_name_of(path@) == Some(n@),
            None => file_name_of(path@) is None,
        },
{
    let p = chars_of(path);
    let base = find_anchor(&p);
    let end = find_end(&p, base, p.len());
    if end > base {
        let start = find_component(&p, base, end);
        let dots = end - start == 2 && p[start] == '.' && p[start + 1] == '.';
        proof {
            let name = p@.subrange(start as int, end as int);
            if dots {
                assert(name =~= seq!['.', '.']);
            } else if name == seq!['.', '.'] {
                assert(name.len() == 2 && name[0] == '.' && name[1] == '.');
            }
        }
        if dots {
            None
        } else {
            Some(path.substring_char(start, end).to_owned())
        }
    } else {
        None
    }
}

/// Joins two paths, as [`join_of`] says.
pub fn join(a: &str, b: &str) -> (result: String)
    ensures
        result@ == join_of(a@, b@),
{
    if !b.is_empty() && b.get_char(0) == '/' {
        b.to_owned()
    } else if a.is_empty() || a.get_char(a.unicode_len() - 1) == '/' {
        a.to_owned().concat(b)
    } else {
        proof {
            reveal_strlit("/");
            assert("/"@ =~= seq!['/']);
        }
        a.to_owned().concat("/").concat(b)
    }
}

/// Every slash of the path separates two components that count, the root slash
/// aside: no component after the anchor is void.
pub open spec fn is_tidy(p: Seq<char>) -> bool {
    forall|i: int| 0 <= i < p.len() && #[trigger] p[i] == '/' ==> {
        &&& i + 1 < p.len()
        &&& p[i + 1] != '/'
        &&& p[i + 1] == '.' ==> i + 2 < p.len() && p[i + 2] != '/'
    }
}

/// The directory part of an absolute path is not empty.
pub proof fn lemma_absolute_parent(p: Seq<char>)
    requires
        p.len() > 0,
        p[0] == '/',
        parent_of(p) is Some,
    ensures
        parent_of(p)->0.len() > 0,
{
    let base = anchor_len(p);
    let end = trimmed_end(p, base, p.len() as int);
    lemma_trimmed_end(p, base, p.len() as int);
    lemma_component_start(p, base, end);
    lemma_trimmed_end(p, base, cut(base, component_start(p, base, end)));
}

/// A file name is never empty, never `.` or `..`, and holds no slash.
pub proof fn law_file_name_is_simple(p: Seq<char>)
    requires
        file_name_of(p) is Some,
    ensures
        file_name_of(p)->0.len() > 0,
        file_name_of(p)->0 != seq!['.'],
        file_name_of(p)->0 != seq!['.', '.'],
        !file_name_of(p)->0.contains('/'),
{
    let base = anchor_len(p);
    lemma_trimmed_end(p, base, p.len() as int);
    let end = trimmed_end(p, base, p.len() as int);
    lemma_component_start(p, base, end);
    let start = component_start(p, base, end);
    let name = p.subrange(start, end);
    assert(!is_void(p, start, end));
    if name == seq!['.'] {
        assert(name.len() == 1 && name[0] == '.');
    }
    assert forall|k: int| 0 <= k < name.len() implies name[k] != '/' by {
        assert(name[k] == p[start + k]);
    }
}

/// In a tidy path the directory part and the file name, joined again, are the
/// path.
pub proof fn law_join_restores_tidy_path(p: Seq<char>)
    requires
        is_tidy(p),
        file_name_of(p) is Some,
    ensures
        parent_of(p) is Some,
        join_of(parent_of(p)->0, file_name_of(p)->0) == p,
{
    let base = anchor_len(p);
    let len = p.len() as int;
    lemma_component_start(p, base, len);
    lemma_trimmed_end(p, base, len);
    let end = trimmed_end(p, base, len);
    lemma_component_start(p, base, end);
    let last = component_start(p, base, len);
    // Nothing is cut off the end of a tidy path.
    if end < len {
        assert(is_void(p, last, len));
        if last > base {
            assert(p[last - 1] == '/');
        } else if base > 0 {
            assert(p[0] == '/' || p[0] == '.');
        }
        assert(end == base);
    }
    assert(end == len);
    let start = component_start(p, base, len);
    let rest = cut(base, start);
    lemma_component_start(p, base, rest);
    lemma_trimmed_end(p, base, rest);
    // Nor off the end of its directory part.
    if trimmed_end(p, base, rest) < rest {
        let at = component_start(p, base, rest);
        assert(is_void(p, at, rest));
        assert(p[rest] == '/');
        if at > base {
            assert(p[at - 1] == '/');
        } else if base > 0 {
            assert(p[0] == '/' || p[0] == '.');
        }
    }
    assert(trimmed_end(p, base, rest) == rest);
    law_file_name_is_simple(p);
    let dir = p.take(rest);
    let name = p.subrange(start, len);
    assert(name[0] == p[start]);
    if start > base {
        if rest > 0 {
            assert(dir.last() == p[rest - 1]);
            if p[rest - 1] == '/' {
                assert(p[rest] == '/');
            }
            assert(join_of(dir, name) =~= p);
        } else {
            assert(join_of(dir, name) =~= p);
        }
    } else {
        assert(join_of(dir, name) =~= p);
    }
}

/// Joining: an absolute path stands alone, and otherwise the second path follows
/// the first with exactly one slash between them, none before the first name of a
/// relative path.
pub proof fn law_join_separates_by_one_slash(a: Seq<char>, b: Seq<char>)
    ensures
        b.len() > 0 && b[0] == '/' ==> join_of(a, b) == b,
        !(b.len() > 0 && b[0] == '/') ==> {
            &&& a.len() == 0 ==> join_of(a, b) == b
            &&& a.len() > 0 && a[a.len() - 1] == '/' ==> join_of(a, b) == a + b
            &&& a.len() > 0 && a[a.len() - 1] != '/' ==> join_of(a, b) == a + seq!['/'] + b
        },
{
    assert(a.len() == 0 ==> a + b =~= b);
}

/// What comes behind a position makes no difference to the component that ends
/// there.
proof fn lemma_component_start_prefix(p: Seq<char>, q: Seq<char>, base: int, end: int)
    requires
        end <= q.len() <= p.len(),
        p.take(q.len() as int) == q,
        0 <= base,
    ensures
        component_start(p, base, end) == component_start(q, base, end),
    decreases end - base,
{
    if base < end {
        assert(p[end - 1] == p.take(q.len() as int)[end - 1]);
        lemma_component_start_prefix(p, q, base, end - 1);
    }
}

/// Nor to where trimming ends.
proof fn lemma_trimmed_end_prefix(p: Seq<char>, q: Seq<char>, base: int, end: int)
    requires
        end <= q.len() <= p.len(),
        p.take(q.len() as int) == q,
        0 <= base,
    ensures
        trimmed_end(p, base, end) == trimmed_end(q, base, end),
    decreases end - base,
{
    if base < end {
        lemma_component_start_prefix(p, q, base, end);
        lemma_component_start(q, base, end);
        let start = component_start(q, base, end);
        if start < end {
            assert(p[start] == p.take(q.len() as int)[start]);
        }
        lemma_trimmed_end_prefix(p, q, base, cut(base, start));
    }
}

/// The last component of a path behind a slash.
proof fn lemma_last_component(q: Seq<char>, name: Seq<char>)
    requires
        !name.contains('/'),
    ensures
        ({
            let p = q + seq!['/'] + name;
            let base = anchor_len(p);
            &&& component_start(p, base, p.len() as int) == q.len() + 1
            &&& p.subrange(q.len() as int + 1, p.len() as int) == name
            &&& p.take(q.len() as int) == q
            &&& q.len() > 0 ==> base == anchor_len(q)
            &&& q.len() == 0 ==> base == 1
        }),
{
    let p = q + seq!['/'] + name;
    let base = anchor_len(p);
    let len = p.len() as int;
    assert(p[q.len() as int] == '/');
    assert(p.subrange(q.len() as int + 1, len) =~= name);
    assert(p.take(q.len() as int) =~= q);
    lemma_component_start(p, base, len);
    let start = component_start(p, base, len);
    if q.len() > 0 {
        assert(p[0] == q[0]);
        if q.len() > 1 {
            assert(p[1] == q[1]);
        }
    }
    if start > q.len() + 1 {
        assert(p[start - 1] == name[start - 1 - (q.len() + 1)]);
        assert(name.contains(name[start - 1 - (q.len() + 1)]));
    }
}

/// The file name of a path is what comes behind its last slash, unless that is
/// `..`.
pub proof fn law_file_name_is_last_component(q: Seq<char>, name: Seq<char>)
    requires
        name.len() > 0,
        !name.contains('/'),
        name != seq!['.'],
    ensures
        name != seq!['.', '.'] ==> file_name_of(q + seq!['/'] + name) == Some(name),
        name == seq!['.', '.'] ==> file_name_of(q + seq!['/'] + name) is None,
        name != seq!['.', '.'] ==> file_name_of(name) == Some(name),
        name == seq!['.', '.'] ==> file_name_of(name) is None,
        parent_of(name) == Some(Seq::<char>::empty()),
{
    let p = q + seq!['/'] + name;
    lemma_last_component(q, name);
    if name.len() == 1 {
        assert(name =~= seq![name[0]]);
    }
    assert(!is_void(p, q.len() as int + 1, p.len() as int)) by {
        assert(p[q.len() as int + 1] == name[0]);
    }
    let len = name.len() as int;
    assert forall|k: int| 0 <= k < len implies name[k] != '/' by {
        assert(name.contains(name[k]));
    }
    assert(anchor_len(name) == 0);
    lemma_component_start(name, 0, len);
    assert(component_start(name, 0, len) == 0) by {
        if component_start(name, 0, len) > 0 {
            assert(name[component_start(name, 0, len) - 1] == '/');
        }
    }
    assert(name.subrange(0, len) =~= name);
    assert(name.take(0) =~= Seq::<char>::empty());
}

/// The directory part of a path is what comes before its last slash; of a file in
/// the root it is the root, however the root is written.
pub proof fn law_directory_is_what_is_before(q: Seq<char>, name: Seq<char>)
    requires
        name.len() > 0,
        !name.contains('/'),
        name != seq!['.'],
    ensures
        parent_of(seq!['/'] + name) == Some(seq!['/']),
        parent_of(seq!['/'] + seq!['/'] + name) == Some(seq!['/']),
        parent_of(seq!['/', '.'] + seq!['/'] + name) == Some(seq!['/']),
        q.len() > 0 && q[q.len() - 1] != '/' && !(q.len() > 1 && q[q.len() - 1] == '.' && q[q.len()
            - 2] == '/') ==> parent_of(q + seq!['/'] + name) == Some(q),
{
    let root = Seq::<char>::empty() + seq!['/'] + name;
    assert(root =~= seq!['/'] + name);
    lemma_last_component(Seq::empty(), name);
    if name.len() == 1 {
        assert(name =~= seq![name[0]]);
    }
    assert(root[1] == name[0]);
    assert(root.take(1) =~= seq!['/']);
    let slash = seq!['/'];
    lemma_parent(slash, name);
    assert(trimmed_end(slash, 1, 1) == 1);
    assert(slash.take(1) =~= slash);
    let dotted = seq!['/', '.'];
    lemma_parent(dotted, name);
    assert(component_start(dotted, 1, 1) == 1);
    assert(component_start(dotted, 1, 2) == 1) by {
        assert(dotted[1] != '/');
    }
    assert(is_void(dotted, 1, 2));
    assert(trimmed_end(dotted, 1, 1) == 1);
    assert(trimmed_end(dotted, 1, 2) == 1);
    assert(dotted.take(1) =~= slash);
    if q.len() > 0 {
        let p = q + seq!['/'] + name;
        lemma_parent(q, name);
        if q[q.len() - 1] != '/' && !(q.len() > 1 && q[q.len() - 1] == '.' && q[q.len() - 2]
            == '/') {
            let base = anchor_len(q);
            let len = q.len() as int;
            lemma_component_start(q, base, len);
            assert(q.take(len) =~= q);
        }
    }
}

/// The directory part in terms of trimming.
proof fn lemma_parent(q: Seq<char>, name: Seq<char>)
    requires
        q.len() > 0,
        name.len() > 0,
        !name.contains('/'),
        name != seq!['.'],
    ensures
        parent_of(q + seq!['/'] + name) == Some(
            q.take(trimmed_end(q, anchor_len(q), q.len() as int)),
        ),
{
    let p = q + seq!['/'] + name;
    let base = anchor_len(p);
    lemma_last_component(q, name);
    if name.len() == 1 {
        assert(name =~= seq![name[0]]);
    }
    assert(p[q.len() as int + 1] == name[0]);
    lemma_trimmed_end_prefix(p, q, base, q.len() as int);
    lemma_trimmed_end(q, base, q.len() as int);
    let end = trimmed_end(q, base, q.len() as int);
    assert(p.take(end) =~= q.take(end));
}

/// Repeated slashes and `.` components make no difference, neither at the end of
/// a path nor before its file name.
pub proof fn law_void_components_count_for_nothing(q: Seq<char>, name: Seq<char>)
    requires
        q.len() > 0,
    ensures
        parent_of(q + seq!['/']) == parent_of(q),
        file_name_of(q + seq!['/']) == file_name_of(q),
        parent_of(q + seq!['/', '.']) == parent_of(q),
        file_name_of(q + seq!['/', '.']) == file_name_of(q),
        name.len() > 0 && !name.contains('/') && name != seq!['.'] ==> {
            &&& parent_of((q + seq!['/']) + seq!['/'] + name) == parent_of(q + seq!['/'] + name)
            &&& parent_of((q + seq!['/', '.']) + seq!['/'] + name) == parent_of(
                q + seq!['/'] + name,
            )
        },
{
    lemma_void_end(q, Seq::empty());
    lemma_void_end(q, seq!['.']);
    assert(q + seq!['/'] + Seq::<char>::empty() =~= q + seq!['/']);
    assert(q + seq!['/'] + seq!['.'] =~= q + seq!['/', '.']);
    if name.len() > 0 && !name.contains('/') && name != seq!['.'] {
        lemma_parent(q, name);
        lemma_parent(q + seq!['/'], name);
        lemma_parent(q + seq!['/', '.'], name);
        let end = trimmed_end(q, anchor_len(q), q.len() as int);
        lemma_trimmed_end(q, anchor_len(q), q.len() as int);
        assert((q + seq!['/']).take(end) =~= q.take(end));
        assert((q + seq!['/', '.']).take(end) =~= q.take(end));
    }
}

/// A void component at the end is trimmed off.
proof fn lemma_void_end(q: Seq<char>, void: Seq<char>)
    requires
        q.len() > 0,
        void == Seq::<char>::empty() || void == seq!['.'],
    ensures
        ({
            let p = q + seq!['/'] + void;
            &&& anchor_len(p) == anchor_len(q)
            &&& trimmed_end(p, anchor_len(p), p.len() as int) == trimmed_end(
                q,
                anchor_len(q),
                q.len() as int,
            )
            &&& parent_of(p) == parent_of(q)
            &&& file_name_of(p) == file_name_of(q)
        }),
{
    let p = q + seq!['/'] + void;
    let base = anchor_len(p);
    let len = q.len() as int;
    assert(!void.contains('/'));
    lemma_last_component(q, void);
    lemma_trimmed_end_prefix(p, q, base, len);
    if void.len() == 1 {
        assert(p[q.len() as int + 1] == '.');
    }
    let end = trimmed_end(q, base, len);
    lemma_trimmed_end(q, base, len);
    assert(trimmed_end(p, base, p.len() as int) == end);
    lemma_component_start_prefix(p, q, base, end);
    lemma_component_start(q, base, end);
    let start = component_start(q, base, end);
    lemma_trimmed_end_prefix(p, q, base, cut(base, start));
    lemma_trimmed_end(q, base, cut(base, start));
    let rest = trimmed_end(q, base, cut(base, start));
    assert(p.take(rest) =~= q.take(rest));
    assert(p.subrange(start, end) =~= q.subrange(start, end));
    assert(p[0] == q[0]);
}

/// Neither the empty path nor the root has a directory part or a file name, and
/// the path `.` names no file.
pub proof fn law_bare_paths()
    ensures
        parent_of(Seq::empty()) is None,
        file_name_of(Seq::empty()) is None,
        parent_of(seq!['/']) is None,
        file_name_of(seq!['/']) is None,
        parent_of(seq!['/', '.']) is None,
        file_name_of(seq!['/', '.']) is None,
        parent_of(seq!['.']) == Some(Seq::<char>::empty()),
        file_name_of(seq!['.']) is None,
{
    let root = seq!['/'];
    law_void_components_count_for_nothing(root, Seq::empty());
    let p = seq!['/', '.'];
    lemma_component_start(p, 1, 2);
    assert(component_start(p, 1, 2) == 1) by {
        assert(p[1] != '/');
        assert(component_start(p, 1, 1) == 1);
    }
    assert(is_void(p, 1, 2));
    assert(trimmed_end(p, 1, 1) == 1);
    assert(trimmed_end(p, 1, 2) == 1);
}

} // verus!
