//! What is about to be sent, in a few lines: what would look odd stands out, and the rest
//! is only counted.

use vstd::prelude::*;

use crate::sources::{sum_bytes, total_bytes, Upload};
use crate::text::{
    decimal, decimal_digits, lemma_same_words, lemma_same_words_two, lemma_texts_push, same_words,
    starts_with, texts,
};

verus! {

/// The file lies in the device directory.
pub open spec fn in_device(f: Upload) -> bool {
    "src/device/"@.is_prefix_of(f.path@)
}

/// The files in the device directory.
pub open spec fn device_files(files: Seq<Upload>) -> Seq<Upload> {
    files.filter(|f: Upload| in_device(f))
}

/// The files outside of the device directory.
pub open spec fn other_files(files: Seq<Upload>) -> Seq<Upload> {
    files.filter(|f: Upload| !in_device(f))
}

/// So many bytes in tenths of a KiB, rounded to the nearest, and to the even one where
/// two are as near.
pub open spec fn kib_tenths(bytes: nat) -> nat {
    let low = bytes * 10 / 1024;
    let rest = bytes * 10 % 1024;
    if rest > 512 || (rest == 512 && low % 2 == 1) {
        low + 1
    } else {
        low
    }
}

/// So many bytes in KiB, with one decimal.
pub open spec fn kib_text(bytes: nat) -> Seq<char> {
    decimal_digits(kib_tenths(bytes) / 10) + "."@ + decimal_digits(kib_tenths(bytes) % 10)
}

/// The line of a file outside of the device directory.
pub open spec fn file_line(f: Upload) -> Seq<char> {
    "                "@ + f.path@
}

/// The lines of files outside of the device directory.
pub open spec fn file_lines(files: Seq<Upload>) -> Seq<Seq<char>> {
    files.map_values(|f: Upload| file_line(f))
}

/// The lines that tell what is about to be sent: how many files and how much, each file
/// outside of the device directory, and how many there are inside.
pub open spec fn manifest(files: Seq<Upload>) -> Seq<Seq<char>> {
    let count = device_files(files).len();
    seq![
        "Files:        "@ + decimal_digits(files.len()) + " ("@ + kib_text(total_bytes(files))
            + " KiB)"@,
    ] + file_lines(other_files(files)) + if count > 0 {
        seq!["                src/device/  ("@ + decimal_digits(count) + " files)"@]
    } else {
        Seq::empty()
    }
}

/// So many bytes in KiB, with one decimal.
pub fn kib(bytes: u128) -> (r: String)
    ensures
        r@ == kib_text(bytes as nat),
{
    let whole: u128 = bytes / 1024;
    let part: u128 = (bytes % 1024) * 10;
    let low: u128 = whole * 10 + part / 1024;
    let rest: u128 = part % 1024;
    assert(low == bytes * 10 / 1024 && rest == bytes * 10 % 1024);
    let tenths: u128 = if rest > 512 || (rest == 512 && low % 2 == 1) {
        low + 1
    } else {
        low
    };
    let front: String = decimal(tenths / 10);
    let behind: String = decimal(tenths % 10);
    front.concat(".").concat(behind.as_str())
}

/// The lines that tell what is about to be sent.
pub fn manifest_lines(files: &Vec<Upload>) -> (r: Vec<String>)
    ensures
        texts(r@) == manifest(files@),
{
    let mut lines: Vec<String> = Vec::new();
    let total: u128 = sum_bytes(files);
    let count: String = decimal(files.len() as u128);
    let size: String = kib(total);
    let first: String = "Files:        ".to_owned().concat(count.as_str()).concat(" (").concat(
        size.as_str(),
    ).concat(" KiB)");
    let ghost head = seq![first@];
    let ghost inside = |f: Upload| in_device(f);
    let ghost outside = |f: Upload| !in_device(f);
    lines.push(first);
    let mut under_device: usize = 0;
    let mut i: usize = 0;
    proof {
        reveal(Seq::filter);
        assert(texts(lines@) =~= head + file_lines(files@.take(0).filter(outside)));
    }
    while i < files.len()
        invariant
            i <= files.len(),
            inside == (|f: Upload| in_device(f)),
            outside == (|f: Upload| !in_device(f)),
            under_device <= i,
            under_device == files@.take(i as int).filter(inside).len(),
            texts(lines@) == head + file_lines(files@.take(i as int).filter(outside)),
        decreases files.len() - i,
    {
        proof {
            files@.lemma_take_succ_push(i as int);
            files@.take(i as int).lemma_filter_push(files@[i as int], inside);
            files@.take(i as int).lemma_filter_push(files@[i as int], outside);
        }
        if starts_with(files[i].path.as_str(), "src/device/") {
            under_device = under_device + 1;
        } else {
            let next: String = "                ".to_owned().concat(files[i].path.as_str());
            proof {
                lemma_texts_push(lines@, next);
            }
            lines.push(next);
            assert(texts(lines@) =~= head + file_lines(files@.take(i + 1).filter(outside)));
        }
        i = i + 1;
    }
    assert(files@.take(i as int) =~= files@);
    if under_device > 0 {
        let digits: String = decimal(under_device as u128);
        let last: String = "                src/device/  (".to_owned().concat(
            digits.as_str(),
        ).concat(" files)");
        proof {
            lemma_texts_push(lines@, last);
        }
        lines.push(last);
    }
    assert(texts(lines@) =~= manifest(files@));
    lines
}

/// Every file is accounted for: it has a line of its own or is counted.
pub proof fn law_manifest_accounts_for_all(files: Seq<Upload>)
    ensures
        other_files(files).len() + device_files(files).len() == files.len(),
    decreases files.len(),
{
    reveal(Seq::filter);
    if files.len() > 0 {
        law_manifest_accounts_for_all(files.drop_last());
    }
}

/// A number with one decimal stands for the tenths of a KiB that are nearest to the bytes,
/// and for the even ones where two are as near.
pub open spec fn is_nearest_tenth(bytes: nat, whole: nat, tenth: nat) -> bool {
    let off = 1024 * (10 * whole + tenth) - 10 * bytes;
    &&& tenth < 10
    &&& -512 <= off <= 512
    &&& off == 512 || off == -512 ==> (10 * whole + tenth) % 2 == 0
}

/// A size is written in KiB to the nearest tenth, with a point before it.
pub proof fn law_size_is_rounded(bytes: nat)
    ensures
        exists|whole: nat, tenth: nat| #[trigger]
            is_nearest_tenth(bytes, whole, tenth) && kib_text(bytes) == decimal_digits(whole) + "."@
                + decimal_digits(tenth),
{
    let n = kib_tenths(bytes);
    assert(10 * (n / 10) + n % 10 == n);
    assert(is_nearest_tenth(bytes, n / 10, n % 10));
}

/// The paths of the files that do not lie below `src/device/`, in their order.
pub open spec fn outside_paths(files: Seq<Upload>) -> Seq<Seq<char>>
    decreases files.len(),
{
    if files.len() == 0 {
        Seq::empty()
    } else if "src/device/"@.is_prefix_of(files.last().path@) {
        outside_paths(files.drop_last())
    } else {
        outside_paths(files.drop_last()).push(files.last().path@)
    }
}

proof fn lemma_outside_paths(files: Seq<Upload>)
    ensures
        other_files(files).len() == outside_paths(files).len(),
        forall|i: int|
            0 <= i < outside_paths(files).len() ==> #[trigger] outside_paths(files)[i]
                == other_files(files)[i].path@,
        device_files(files).len() == files.len() - outside_paths(files).len(),
    decreases files.len(),
{
    reveal(Seq::filter);
    law_manifest_accounts_for_all(files);
    if files.len() > 0 {
        lemma_outside_paths(files.drop_last());
    }
}

/// The manifest tells how many files there are and how much they hold, names each file
/// outside of `src/device/` by its whole path, in their order, and counts the others in a
/// last line if there are any; in the same words for all submissions.
pub proof fn law_manifest_names_and_counts(files: Seq<Upload>, others: Seq<Upload>, i: int, j: int)
    ensures
        ({
            let (m, o) = (manifest(files), manifest(others));
            let (a, b) = (outside_paths(files), outside_paths(others));
            let (x, y) = ((files.len() - a.len()) as nat, (others.len() - b.len()) as nat);
            &&& m.len() == 1 + a.len() + if x > 0 {
                1int
            } else {
                0
            }
            &&& same_words(
                m[0],
                seq![decimal_digits(files.len()), kib_text(total_bytes(files))],
                o[0],
                seq![decimal_digits(others.len()), kib_text(total_bytes(others))],
            )
            &&& 0 <= i < a.len() && 0 <= j < b.len() ==> same_words(
                m[1 + i],
                seq![a[i]],
                o[1 + j],
                seq![b[j]],
            )
            &&& x > 0 && y > 0 ==> same_words(
                m.last(),
                seq![decimal_digits(x)],
                o.last(),
                seq![decimal_digits(y)],
            )
        }),
{
    let no = Seq::<char>::empty();
    let (a, b) = (outside_paths(files), outside_paths(others));
    lemma_outside_paths(files);
    lemma_outside_paths(others);
    lemma_same_words_two(
        "Files:        "@,
        " ("@,
        " KiB)"@,
        (decimal_digits(files.len()), kib_text(total_bytes(files))),
        (decimal_digits(others.len()), kib_text(total_bytes(others))),
    );
    if 0 <= i < a.len() && 0 <= j < b.len() {
        let margin = "                "@;
        lemma_same_words(margin, no, a[i], b[j]);
        assert(manifest(files)[1 + i] =~= margin + a[i] + no);
        assert(manifest(others)[1 + j] =~= margin + b[j] + no);
    }
    lemma_same_words(
        "                src/device/  ("@,
        " files)"@,
        decimal_digits(device_files(files).len()),
        decimal_digits(device_files(others).len()),
    );
}

} // verus!
