//! The files of a submission: what one of them is, and when a set of them may be sent.

use vstd::prelude::*;

use crate::failure::{told_alike, Failure, FailureView};
use crate::order::{comes_before, law_text_order, text_before};
use crate::text::{
    decimal, decimal_digits, join, joined, lemma_same_words, lemma_same_words_two, texts,
};

verus! {

/// The one file outside the device directory that is submitted.
pub const ALLOWED_FILE: &'static str = "src/ops.rs";

/// The directory whose files are submitted.
pub const ALLOWED_DIR: &'static str = "src/device";

/// At most this many files make a submission. The server has the same limit.
pub const MAX_FILES: usize = 1000;

/// At most this many bytes make a submission. The server has the same limit.
pub const MAX_TOTAL_BYTES: u64 = 10 * 1024 * 1024;

/// A file to send: its path below the repository, separated by `/`, and its content.
#[derive(Debug)]
pub struct Upload {
    pub path: String,
    pub bytes: Vec<u8>,
}

/// What an [`Upload`] holds.
pub struct UploadView {
    pub path: Seq<char>,
    pub bytes: Seq<u8>,
}

impl View for Upload {
    type V = UploadView;

    open spec fn view(&self) -> UploadView {
        UploadView { path: self.path@, bytes: self.bytes@ }
    }
}

/// What each of the files holds.
pub open spec fn uploads(files: Seq<Upload>) -> Seq<UploadView> {
    files.map_values(|f: Upload| f@)
}

/// How many bytes the files hold together.
pub open spec fn total_bytes(files: Seq<Upload>) -> nat
    decreases files.len(),
{
    if files.len() == 0 {
        0
    } else {
        total_bytes(files.drop_last()) + files.last().bytes@.len()
    }
}

/// The files stand in the order of their paths.
pub open spec fn in_path_order(files: Seq<Upload>) -> bool {
    forall|i: int, j: int|
        0 <= i < j < files.len() ==> !text_before(
            #[trigger] files[j].path@,
            #[trigger] files[i].path@,
        )
}

/// The files with the given path, in the order in which they stand.
pub open spec fn with_path(files: Seq<Upload>, path: Seq<char>) -> Seq<Upload> {
    files.filter(|f: Upload| f.path@ == path)
}

/// `sorted` holds the files of `files`, each as often as there, in the order of
/// their paths; files with one path keep the order in which they stood.
pub open spec fn is_path_sort(files: Seq<Upload>, sorted: Seq<Upload>) -> bool {
    &&& in_path_order(sorted)
    &&& sorted.to_multiset() == files.to_multiset()
    &&& forall|path: Seq<char>| #[trigger] with_path(sorted, path) == with_path(files, path)
}

/// Some file is empty.
pub open spec fn has_empty(files: Seq<Upload>) -> bool {
    exists|i: int| 0 <= i < files.len() && #[trigger] files[i].bytes@.len() == 0
}

/// File `i` is empty, and no empty file has a path that comes before its path.
pub open spec fn is_first_empty(files: Seq<Upload>, i: int) -> bool {
    &&& 0 <= i < files.len()
    &&& files[i].bytes@.len() == 0
    &&& forall|j: int|
        0 <= j < files.len() && files[j].bytes@.len() == 0 ==> !text_before(
            #[trigger] files[j].path@,
            files[i].path@,
        )
}

/// The files may be sent.
pub open spec fn sendable(files: Seq<Upload>) -> bool {
    &&& files.len() <= MAX_FILES
    &&& !has_empty(files)
    &&& total_bytes(files) <= MAX_TOTAL_BYTES
}

/// There are `count` files, which is too many.
pub open spec fn too_many_files(count: nat) -> FailureView {
    FailureView::usage(
        "A submission may contain at most "@ + decimal_digits(MAX_FILES as nat)
            + " files, but this one has "@ + decimal_digits(count)
            + ".\nCheck whether something unexpected ended up under "@ + ALLOWED_DIR@ + "/."@,
    )
}

/// The file at `path` is empty.
pub open spec fn empty_file(path: Seq<char>) -> FailureView {
    FailureView::usage(
        path
            + " is empty. The server does not accept empty files; delete it or write something in it."@,
    )
}

/// The files hold `total` bytes together, which is too much.
pub open spec fn too_large(total: nat) -> FailureView {
    FailureView::usage(
        "The sources total "@ + decimal_digits(total / 1024) + " KiB, over the "@ + decimal_digits(
            MAX_TOTAL_BYTES as nat / 1024,
        ) + " KiB limit.\nCheck whether something unexpected ended up under "@ + ALLOWED_DIR@
            + "/."@,
    )
}

/// How [`read_upload`] answers when the file could not be read.
pub open spec fn unreadable(display: Seq<char>, reason: Seq<char>) -> FailureView {
    FailureView::usage("Cannot read "@ + display + ": "@ + reason)
}

proof fn lemma_total_bytes_concat(a: Seq<Upload>, b: Seq<Upload>)
    ensures
        total_bytes(a + b) == total_bytes(a) + total_bytes(b),
    decreases b.len(),
{
    if b.len() == 0 {
        assert(a + b == a);
    } else {
        assert((a + b).drop_last() == a + b.drop_last());
        assert((a + b).last() == b.last());
        lemma_total_bytes_concat(a, b.drop_last());
    }
}

/// Putting `f` in front of `rest`, and before the first of the sorted files whose
/// path does not come before its path, keeps one the sorted form of the other.
proof fn lemma_insert(rest: Seq<Upload>, sorted: Seq<Upload>, f: Upload, at: int)
    requires
        is_path_sort(rest, sorted),
        total_bytes(sorted) == total_bytes(rest),
        0 <= at <= sorted.len(),
        forall|i: int| 0 <= i < at ==> text_before(#[trigger] sorted[i].path@, f.path@),
        at < sorted.len() ==> !text_before(sorted[at].path@, f.path@),
    ensures
        is_path_sort(seq![f] + rest, sorted.insert(at, f)),
        total_bytes(sorted.insert(at, f)) == total_bytes(seq![f] + rest),
{
    broadcast use vstd::multiset::group_multiset_axioms;

    let low = sorted.take(at);
    let high = sorted.skip(at);
    let result = sorted.insert(at, f);
    assert(sorted == low + high);
    assert(result == low + (seq![f] + high));
    assert(in_path_order(result)) by {
        assert forall|i: int, j: int| 0 <= i < j < result.len() implies !text_before(
            #[trigger] result[j].path@,
            #[trigger] result[i].path@,
        ) by {
            if j < at {
                assert(result[i] == sorted[i] && result[j] == sorted[j]);
            } else if j == at {
                law_text_order(f.path@, sorted[i].path@, f.path@);
            } else {
                assert(result[j] == sorted[j - 1]);
                if i < at {
                    assert(result[i] == sorted[i]);
                } else if i > at {
                    assert(result[i] == sorted[i - 1]);
                } else {
                    let x = sorted[at].path@;
                    let y = sorted[j - 1].path@;
                    if j - 1 > at {
                        assert(!text_before(y, x));
                    }
                    law_text_order(y, f.path@, x);
                    law_text_order(x, y, f.path@);
                    law_text_order(x, f.path@, y);
                }
            }
        }
    }
    assert(result.to_multiset() == (seq![f] + rest).to_multiset()) by {
        vstd::seq_lib::lemma_multiset_commutative(low, seq![f] + high);
        vstd::seq_lib::lemma_multiset_commutative(seq![f], high);
        vstd::seq_lib::lemma_multiset_commutative(low, high);
        vstd::seq_lib::lemma_multiset_commutative(seq![f], rest);
    }
    assert forall|path: Seq<char>| #[trigger]
        with_path(result, path) == with_path(seq![f] + rest, path) by {
        let p = |u: Upload| u.path@ == path;
        Seq::filter_distributes_over_add(low, seq![f] + high, p);
        Seq::filter_distributes_over_add(seq![f], high, p);
        Seq::filter_distributes_over_add(low, high, p);
        Seq::filter_distributes_over_add(seq![f], rest, p);
        assert(with_path(sorted, path) == with_path(rest, path));
        if f.path@ == path {
            assert(low.all(|u: Upload| !p(u))) by {
                assert forall|i: int| 0 <= i < low.len() implies !p(#[trigger] low[i]) by {
                    assert(low[i] == sorted[i]);
                    law_text_order(path, path, path);
                }
            }
            low.lemma_all_neg_filter_empty(p);
        } else {
            assert(seq![f].filter(p).len() == 0) by {
                assert(seq![f].all(|u: Upload| !p(u)));
                seq![f].lemma_all_neg_filter_empty(p);
            }
        }
        assert(with_path(result, path) =~= with_path(seq![f] + rest, path));
    }
    lemma_total_bytes_concat(low, seq![f] + high);
    lemma_total_bytes_concat(seq![f], high);
    lemma_total_bytes_concat(low, high);
    lemma_total_bytes_concat(seq![f], rest);
}

/// The files in the order of their paths; files with one path keep their order.
pub fn sort_by_path(files: Vec<Upload>) -> (sorted: Vec<Upload>)
    ensures
        is_path_sort(files@, sorted@),
        total_bytes(sorted@) == total_bytes(files@),
{
    let mut rest: Vec<Upload> = files;
    let mut sorted: Vec<Upload> = Vec::new();
    let ghost mut done: Seq<Upload> = Seq::empty();
    assert(rest@ + done == files@);
    while rest.len() > 0
        invariant
            rest@ + done == files@,
            is_path_sort(done, sorted@),
            total_bytes(sorted@) == total_bytes(done),
        decreases rest.len(),
    {
        let ghost before = rest@;
        if let Some(f) = rest.pop() {
            let mut at: usize = 0;
            while at < sorted.len() && comes_before(sorted[at].path.as_str(), f.path.as_str())
                invariant
                    at <= sorted.len(),
                    forall|i: int|
                        0 <= i < at ==> text_before(#[trigger] sorted@[i].path@, f.path@),
                decreases sorted.len() - at,
            {
                at = at + 1;
            }
            proof {
                lemma_insert(done, sorted@, f, at as int);
                done = seq![f] + done;
                assert(rest@ + done == before + done.drop_first());
            }
            sorted.insert(at, f);
        }
    }
    assert(done == files@);
    sorted
}

/// The total of the bytes, which is below this bound because no file is longer than
/// a `usize` can say.
proof fn lemma_total_bytes_bound(files: Seq<Upload>)
    ensures
        total_bytes(files) <= files.len() * usize::MAX,
    decreases files.len(),
{
    if files.len() > 0 {
        lemma_total_bytes_bound(files.drop_last());
        assert(files.len() * usize::MAX == (files.len() - 1) * usize::MAX + usize::MAX)
            by (nonlinear_arith)
            requires
                files.len() > 0,
        ;
        let last = files.last();
        assert(last.bytes@.len() == last.bytes.len());
    }
}

/// How many bytes the files hold together.
pub fn sum_bytes(files: &Vec<Upload>) -> (total: u128)
    ensures
        total == total_bytes(files@),
{
    let mut total: u128 = 0;
    let mut i: usize = 0;
    while i < files.len()
        invariant
            i <= files.len(),
            total == total_bytes(files@.take(i as int)),
        decreases files.len() - i,
    {
        assert(files@.take(i + 1).drop_last() == files@.take(i as int));
        proof {
            lemma_total_bytes_bound(files@.take(i + 1));
            assert((i + 1) * usize::MAX <= u128::MAX) by (nonlinear_arith)
                requires
                    i < usize::MAX,
            ;
        }
        total = total + files[i].bytes.len() as u128;
        i = i + 1;
    }
    assert(files@.take(i as int) == files@);
    total
}

/// The sorted form holds a file exactly if the files do.
pub proof fn lemma_same_files(files: Seq<Upload>, sorted: Seq<Upload>, f: Upload)
    requires
        is_path_sort(files, sorted),
    ensures
        files.len() == sorted.len(),
        files.contains(f) == sorted.contains(f),
{
    files.to_multiset_ensures();
    sorted.to_multiset_ensures();
    assert(files.to_multiset().count(f) == sorted.to_multiset().count(f));
}

/// The first empty file of the sorted form is a first empty file of the files.
proof fn lemma_first_empty(files: Seq<Upload>, sorted: Seq<Upload>, at: int) -> (i: int)
    requires
        is_path_sort(files, sorted),
        0 <= at < sorted.len(),
        sorted[at].bytes@.len() == 0,
        forall|j: int| 0 <= j < at ==> #[trigger] sorted[j].bytes@.len() != 0,
    ensures
        is_first_empty(files, i),
        files[i] == sorted[at],
{
    lemma_same_files(files, sorted, sorted[at]);
    assert(sorted.contains(sorted[at]));
    let i = choose|i: int| 0 <= i < files.len() && files[i] == sorted[at];
    assert forall|j: int| 0 <= j < files.len() && files[j].bytes@.len() == 0 implies !text_before(
        #[trigger] files[j].path@,
        files[i].path@,
    ) by {
        lemma_same_files(files, sorted, files[j]);
        assert(files.contains(files[j]));
        let k = choose|k: int| 0 <= k < sorted.len() && sorted[k] == files[j];
        if k < at {
            assert(sorted[k].bytes@.len() != 0);
        } else if k == at {
            law_text_order(sorted[at].path@, sorted[at].path@, sorted[at].path@);
        }
    }
    i
}

/// Takes the files that were found and gives them back in the order of their paths,
/// or says why they cannot be sent: too many, then an empty one, then too large.
pub fn collect_sources(files: Vec<Upload>) -> (r: Result<Vec<Upload>, Failure>)
    ensures
        match r {
            Ok(sorted) => sendable(files@) && is_path_sort(files@, sorted@),
            Err(failure) => !sendable(files@) && if files@.len() > MAX_FILES {
                failure@ == too_many_files(files@.len())
            } else if has_empty(files@) {
                exists|i: int|
                    #![trigger is_first_empty(files@, i)]
                    is_first_empty(files@, i) && failure@ == empty_file(files@[i].path@)
            } else {
                failure@ == too_large(total_bytes(files@))
            },
        },
{
    let ghost given = files@;
    let sorted: Vec<Upload> = sort_by_path(files);
    proof {
        given.to_multiset_ensures();
        sorted@.to_multiset_ensures();
    }
    assert(sorted@.len() == given.len());
    if sorted.len() > MAX_FILES {
        let limit: String = decimal(MAX_FILES as u128);
        let count: String = decimal(sorted.len() as u128);
        let message: String = "A submission may contain at most ".to_owned().concat(
            limit.as_str(),
        ).concat(" files, but this one has ").concat(count.as_str()).concat(
            ".\nCheck whether something unexpected ended up under ",
        ).concat(ALLOWED_DIR).concat("/.");
        return Err(Failure::usage(message));
    }
    let mut i: usize = 0;
    while i < sorted.len()
        invariant
            i <= sorted.len(),
            sorted.len() <= MAX_FILES,
            given.len() == sorted.len(),
            is_path_sort(given, sorted@),
            given == files@,
            forall|j: int| 0 <= j < i ==> #[trigger] sorted@[j].bytes@.len() != 0,
        decreases sorted.len() - i,
    {
        if sorted[i].bytes.len() == 0 {
            let message: String = sorted[i].path.clone().concat(
                " is empty. The server does not accept empty files; delete it or write something in it.",
            );
            proof {
                let k = lemma_first_empty(given, sorted@, i as int);
                assert(is_first_empty(given, k));
                assert(given[k].bytes@.len() == 0);
            }
            return Err(Failure::usage(message));
        }
        i = i + 1;
    }
    assert(!has_empty(given)) by {
        assert forall|k: int| 0 <= k < given.len() implies #[trigger] given[k].bytes@.len() != 0 by {
            lemma_same_files(given, sorted@, given[k]);
            assert(given.contains(given[k]));
        }
    }
    let total: u128 = sum_bytes(&sorted);
    if total > MAX_TOTAL_BYTES as u128 {
        let kib: String = decimal(total / 1024);
        let limit: String = decimal(MAX_TOTAL_BYTES as u128 / 1024);
        let message: String = "The sources total ".to_owned().concat(kib.as_str()).concat(
            " KiB, over the ",
        ).concat(limit.as_str()).concat(
            " KiB limit.\nCheck whether something unexpected ended up under ",
        ).concat(ALLOWED_DIR).concat("/.");
        return Err(Failure::usage(message));
    }
    Ok(sorted)
}

/// The upload for a file: its content, or why it could not be read, and the names that
/// lead to it from the repository, or nothing if it lies outside. `display` is the
/// file's full path for messages.
pub fn read_upload(
    relative: Option<&Vec<String>>,
    display: &str,
    content: Result<Vec<u8>, String>,
) -> (r: Result<Upload, Failure>)
    ensures
        match (content, relative) {
            (Err(reason), _) => r matches Err(failure) && failure@ == unreadable(display@, reason@),
            (Ok(bytes), None) => r matches Err(failure) && failure@ == FailureView::usage(
                display@ + " is outside the repository"@,
            ),
            (Ok(bytes), Some(names)) => r matches Ok(upload) && upload@ == (UploadView {
                path: joined(texts(names@), "/"@),
                bytes: bytes@,
            }),
        },
{
    match content {
        Err(reason) => {
            let message: String = "Cannot read ".to_owned().concat(display).concat(": ").concat(
                reason.as_str(),
            );
            Err(Failure::usage(message))
        },
        Ok(bytes) => match relative {
            None => Err(Failure::usage(display.to_owned().concat(" is outside the repository"))),
            Some(names) => Ok(Upload { path: join(names, "/"), bytes }),
        },
    }
}

/// Files may be sent exactly if there are at most 1000, none of them is empty, and together
/// they hold at most 10 MiB. The bytes of files are those of each of them, added up.
pub proof fn law_limits_decide(files: Seq<Upload>, more: Seq<Upload>, f: Upload)
    ensures
        sendable(files) <==> {
            &&& files.len() <= 1000
            &&& forall|i: int| 0 <= i < files.len() ==> (#[trigger] files[i]).bytes@.len() > 0
            &&& total_bytes(files) <= 10_485_760
        },
        has_empty(files) <==> exists|i: int|
            0 <= i < files.len() && (#[trigger] files[i]).bytes@.len() == 0,
        total_bytes(files + more) == total_bytes(files) + total_bytes(more),
        total_bytes(seq![f]) == f.bytes@.len(),
        total_bytes(Seq::empty()) == 0,
{
    lemma_total_bytes_concat(files, more);
    reveal_with_fuel(total_bytes, 2);
    assert(seq![f].drop_last() =~= Seq::<Upload>::empty());
    if exists|i: int| 0 <= i < files.len() && (#[trigger] files[i]).bytes@.len() == 0 {
        let i = choose|i: int| 0 <= i < files.len() && (#[trigger] files[i]).bytes@.len() == 0;
        assert(files[i].bytes@.len() == 0);
    }
}

/// What is sent are the files that were found, each as often, and no path in it comes
/// before one that stands in front of it. Files with one path keep their order.
pub proof fn law_sorted_files(
    files: Seq<Upload>,
    sorted: Seq<Upload>,
    i: int,
    j: int,
    path: Seq<char>,
)
    requires
        is_path_sort(files, sorted),
    ensures
        sorted.len() == files.len(),
        sorted.to_multiset() == files.to_multiset(),
        0 <= i < j < sorted.len() ==> !text_before(sorted[j].path@, sorted[i].path@),
        with_path(sorted, path) == with_path(files, path),
{
    files.to_multiset_ensures();
    sorted.to_multiset_ensures();
}

/// The files with one path are picked one by one, in the order in which they stand.
pub proof fn law_files_with_one_path(a: Seq<Upload>, b: Seq<Upload>, f: Upload, path: Seq<char>)
    ensures
        with_path(a + b, path) == with_path(a, path) + with_path(b, path),
        with_path(seq![f], path) == if f.path@ == path {
            seq![f]
        } else {
            Seq::empty()
        },
{
    let p = |u: Upload| u.path@ == path;
    Seq::filter_distributes_over_add(a, b, p);
    reveal(Seq::filter);
    reveal_with_fuel(Seq::filter, 2);
    assert(seq![f].drop_last() =~= Seq::<Upload>::empty());
    assert(with_path(seq![f], path) =~= if f.path@ == path {
        seq![f]
    } else {
        Seq::empty()
    });
}

/// The empty file that is named is one that holds nothing, and no other such file has a
/// path before its path.
pub proof fn law_named_empty_file(files: Seq<Upload>, i: int, j: int)
    requires
        is_first_empty(files, i),
        0 <= j < files.len(),
    ensures
        0 <= i < files.len(),
        files[i].bytes@.len() == 0,
        files[j].bytes@.len() == 0 ==> !text_before(files[j].path@, files[i].path@),
{
}

/// Why files cannot be sent is told with the number, the path or the size, whole, between
/// the same words; and so is a file that cannot be read, with its path and the reason.
pub proof fn law_limits_are_told(
    x: nat,
    y: nat,
    p: (Seq<char>, Seq<char>),
    q: (Seq<char>, Seq<char>),
)
    ensures
        told_alike(
            too_many_files(x),
            seq![decimal_digits(x)],
            too_many_files(y),
            seq![decimal_digits(y)],
        ),
        told_alike(
            too_large(x),
            seq![decimal_digits(x / 1024)],
            too_large(y),
            seq![decimal_digits(y / 1024)],
        ),
        told_alike(empty_file(p.0), seq![p.0], empty_file(q.0), seq![q.0]),
        told_alike(unreadable(p.0, p.1), seq![p.0, p.1], unreadable(q.0, q.1), seq![q.0, q.1]),
{
    let no = Seq::<char>::empty();
    let a = "A submission may contain at most "@ + decimal_digits(MAX_FILES as nat)
        + " files, but this one has "@;
    let b = ".\nCheck whether something unexpected ended up under "@ + ALLOWED_DIR@ + "/."@;
    lemma_same_words(a, b, decimal_digits(x), decimal_digits(y));
    assert(too_many_files(x).message =~= a + decimal_digits(x) + b);
    assert(too_many_files(y).message =~= a + decimal_digits(y) + b);
    let c = "The sources total "@;
    let d = " KiB, over the "@ + decimal_digits(MAX_TOTAL_BYTES as nat / 1024)
        + " KiB limit.\nCheck whether something unexpected ended up under "@ + ALLOWED_DIR@ + "/."@;
    lemma_same_words(c, d, decimal_digits(x / 1024), decimal_digits(y / 1024));
    assert(too_large(x).message =~= c + decimal_digits(x / 1024) + d);
    assert(too_large(y).message =~= c + decimal_digits(y / 1024) + d);
    let e =
        " is empty. The server does not accept empty files; delete it or write something in it."@;
    lemma_same_words(no, e, p.0, q.0);
    assert(empty_file(p.0).message =~= no + p.0 + e);
    assert(empty_file(q.0).message =~= no + q.0 + e);
    lemma_same_words_two("Cannot read "@, ": "@, no, p, q);
    assert(unreadable(p.0, p.1).message =~= "Cannot read "@ + p.0 + ": "@ + p.1 + no);
    assert(unreadable(q.0, q.1).message =~= "Cannot read "@ + q.0 + ": "@ + q.1 + no);
}

/// What is seen of files is what each of them holds.
pub proof fn law_upload_views(files: Seq<Upload>, f: Upload)
    ensures
        f@.path == f.path@,
        f@.bytes == f.bytes@,
        uploads(files).len() == files.len(),
        forall|i: int| 0 <= i < files.len() ==> #[trigger] uploads(files)[i] == files[i]@,
{
}

} // verus!
