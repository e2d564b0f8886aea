//! The sizes of the files of a changeset, and where their contents lie among its
//! content bytes.

use vstd::prelude::*;

use crate::messages::{entry_views, FileEntry, FileEntryView};

verus! {

/// The number of content bytes of a list of files.
pub open spec fn total_size(files: Seq<FileEntryView>) -> nat
    decreases files.len(),
{
    if files.len() == 0 {
        0
    } else {
        total_size(files.drop_last()) + files.last().size
    }
}

/// Where the content of the file `i` begins in the content bytes of a changeset.
pub open spec fn offset(files: Seq<FileEntryView>, i: int) -> int {
    total_size(files.take(i)) as int
}

/// The content of the file `i` among the content bytes of a changeset.
pub open spec fn share(files: Seq<FileEntryView>, content: Seq<u8>, i: int) -> Seq<u8> {
    content.subrange(offset(files, i), offset(files, i + 1))
}

/// The offsets grow by the sizes.
pub proof fn lemma_offset_step(files: Seq<FileEntryView>, i: int)
    requires
        0 <= i < files.len(),
    ensures
        offset(files, i + 1) == offset(files, i) + files[i].size,
        offset(files, i) >= 0,
{
    assert(files.take(i + 1).drop_last() =~= files.take(i));
}

/// The offsets never fall.
pub proof fn lemma_offset_order(files: Seq<FileEntryView>, i: int, j: int)
    requires
        0 <= i <= j <= files.len(),
    ensures
        0 <= offset(files, i) <= offset(files, j) <= total_size(files),
    decreases files.len() - i,
{
    assert(files.take(files.len() as int) =~= files);
    if i < files.len() {
        lemma_offset_step(files, i);
        if i < j {
            lemma_offset_order(files, i + 1, j);
        } else {
            lemma_offset_order(files, i + 1, i + 1);
        }
    }
}

/// The number of content bytes of the files from `i` on.
pub open spec fn size_from(files: Seq<FileEntryView>, i: int) -> nat {
    (total_size(files) - offset(files, i)) as nat
}

/// Sums of file sizes stay far below the limit of 128 bits.
pub proof fn lemma_total_bound(files: Seq<FileEntryView>)
    requires
        files.len() <= usize::MAX,
        forall|i: int| 0 <= i < files.len() ==> (#[trigger] files[i]).size <= u64::MAX,
    ensures
        total_size(files) <= u128::MAX,
{
    lemma_total_product(files);
    let n = files.len() as int;
    assert(n * 0xffff_ffff_ffff_ffff <= 0xffff_ffff_ffff_ffff * 0xffff_ffff_ffff_ffff)
        by (nonlinear_arith)
        requires
            0 <= n <= 0xffff_ffff_ffff_ffff,
    ;
}

proof fn lemma_total_product(files: Seq<FileEntryView>)
    requires
        forall|i: int| 0 <= i < files.len() ==> (#[trigger] files[i]).size <= u64::MAX,
    ensures
        total_size(files) <= files.len() * 0xffff_ffff_ffff_ffff,
    decreases files.len(),
{
    if files.len() > 0 {
        let fewer = files.drop_last();
        assert forall|i: int| 0 <= i < fewer.len() implies (#[trigger] fewer[i]).size
            <= u64::MAX by {
            assert(fewer[i] == files[i]);
        }
        lemma_total_product(fewer);
        assert(files[files.len() - 1].size <= u64::MAX);
        let n = files.len() as int;
        assert(n * 0xffff_ffff_ffff_ffff == (n - 1) * 0xffff_ffff_ffff_ffff
            + 0xffff_ffff_ffff_ffff) by (nonlinear_arith);
    }
}

/// Computes [`size_from`].
pub fn sum_sizes_from(files: &Vec<FileEntry>, i: usize) -> (result: u128)
    requires
        i <= files@.len(),
    ensures
        result == size_from(entry_views(files@), i as int),
{
    let ghost views = entry_views(files@);
    let n: usize = files.len();
    proof {
        assert(views.len() == n);
        lemma_total_bound(views);
        lemma_offset_order(views, i as int, i as int);
        assert(views.take(n as int) =~= views);
    }
    let mut sum: u128 = 0;
    let mut j: usize = i;
    while j < n
        invariant
            i <= j <= n,
            n == files@.len(),
            views == entry_views(files@),
            views.len() == n,
            total_size(views) <= u128::MAX,
            0 <= offset(views, i as int),
            sum == offset(views, j as int) - offset(views, i as int),
        decreases n - j,
    {
        proof {
            lemma_offset_step(views, j as int);
            lemma_offset_order(views, j + 1, j + 1);
            assert(views[j as int].size == files@[j as int].size);
        }
        sum = sum + files[j].size as u128;
        j = j + 1;
    }
    sum
}

/// Sizes add up file by file, and the content of a file is the stretch of the
/// content bytes between those of the files before it and those behind it.
pub proof fn law_contents_lie_in_order(
    files: Seq<FileEntryView>,
    file: FileEntryView,
    content: Seq<u8>,
    i: int,
)
    ensures
        total_size(Seq::empty()) == 0,
        total_size(files.push(file)) == total_size(files) + file.size,
        0 <= i <= files.len() ==> offset(files, i) == total_size(files.take(i)),
        0 <= i <= files.len() ==> size_from(files, i) + total_size(files.take(i)) == total_size(
            files,
        ),
        0 <= i < files.len() && content.len() == total_size(files) ==> {
            &&& share(files, content, i).len() == files[i].size
            &&& content.take(total_size(files.take(i)) as int) + share(files, content, i)
                == content.take(total_size(files.take(i + 1)) as int)
        },
{
    assert(files.push(file).drop_last() =~= files);
    if 0 <= i <= files.len() {
        lemma_offset_order(files, i, files.len() as int);
        if i < files.len() && content.len() == total_size(files) {
            lemma_offset_step(files, i);
            lemma_offset_order(files, i + 1, files.len() as int);
            assert(content.take(total_size(files.take(i)) as int) + share(files, content, i)
                =~= content.take(total_size(files.take(i + 1)) as int));
        }
    }
}

} // verus!
