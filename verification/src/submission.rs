//! A submission as the server describes it, and how its parts are shown.

use vstd::prelude::*;
use vstd::utf8::*;

use crate::order::text_before;
use crate::text::{
    as_slice, decimal, decimal_digits, lemma_same_words_two, same_words, slice_text, text_of,
};

verus! {

/// What one kernel cost: the name of the kernel and the cycles as the server wrote them.
#[derive(Debug)]
pub struct Cycles {
    pub kernel: String,
    pub value: String,
}

/// A submission as the server describes it.
#[derive(Debug)]
pub struct Submission {
    pub submission_id: String,
    pub team_name: String,
    pub status: String,
    pub stage: Option<String>,
    /// One entry per kernel, in the order of their names: see [`in_kernel_order`].
    pub cycles: Vec<Cycles>,
    /// The score, written with four decimals.
    pub score: Option<String>,
    pub error: Option<String>,
    pub flagged: Option<String>,
    pub queue_position: Option<u32>,
    pub created_at: Option<String>,
    pub finished_at: Option<String>,
}

/// The entries stand in the order of the names of their kernels, and no kernel has two.
pub open spec fn in_kernel_order(cycles: Seq<Cycles>) -> bool {
    forall|i: int, j: int|
        0 <= i < j < cycles.len() ==> text_before(
            (#[trigger] cycles[i]).kernel@,
            (#[trigger] cycles[j]).kernel@,
        )
}

/// The status, and the place in the queue while the submission waits there.
pub open spec fn status_text(one: Submission) -> Seq<char> {
    match one.queue_position {
        Some(position) => one.status@ + " (#"@ + decimal_digits(position as nat) + ")"@,
        None => one.status@,
    }
}

/// The score, or a dash while there is none.
pub open spec fn score_text(one: Submission) -> Seq<char> {
    match one.score {
        Some(score) => score@,
        None => "-"@,
    }
}

/// The text is at least as long as a date with hours and minutes, and has a `T` between
/// the date and the time. Lengths and places count bytes.
pub open spec fn looks_like_time(raw: Seq<char>) -> bool {
    let b = encode_utf8(raw);
    b.len() >= 16 && b[10] == 0x54
}

/// A time whose minutes do not end inside of a character.
pub open spec fn can_be_shortened(raw: Seq<char>) -> bool {
    looks_like_time(raw) ==> is_char_boundary(encode_utf8(raw), 16)
}

/// The time, if there is one, can be shortened.
pub open spec fn time_can_be_shortened(raw: Option<Seq<char>>) -> bool {
    raw matches Some(s) ==> can_be_shortened(s)
}

/// The date and the time to the minute, or the text as it is if it does not look like a
/// time, or a dash if there is none.
pub open spec fn short_time_text(raw: Option<Seq<char>>) -> Seq<char> {
    match raw {
        None => "-"@,
        Some(s) => if looks_like_time(s) {
            let b = encode_utf8(s);
            decode_utf8(b.subrange(0, 10)) + " "@ + decode_utf8(b.subrange(11, 16))
        } else {
            s
        },
    }
}

/// The times of the submission can be shortened.
pub open spec fn times_can_be_shortened(one: Submission) -> bool {
    time_can_be_shortened(text_of(one.created_at)) && time_can_be_shortened(
        text_of(one.finished_at),
    )
}

/// Before an ASCII byte there is a boundary of characters, and behind it as well.
proof fn lemma_boundaries_around_ascii(b: Seq<u8>, at: int)
    requires
        valid_utf8(b),
        0 <= at < b.len(),
        b[at] < 0x80,
    ensures
        is_char_boundary(b, at),
        is_char_boundary(b.subrange(at, b.len() as int), 1),
{
    is_char_boundary_iff_not_is_continuation_byte(b, at);
    valid_utf8_split(b, at);
    let tail = b.subrange(at, b.len() as int);
    assert(tail[0] == b[at]);
    assert(valid_first_scalar(tail));
    assert(length_of_first_scalar(tail) == 1);
    if tail.len() == 1 {
        is_char_boundary_start_end_of_seq(tail);
    } else {
        let rest = pop_first_scalar(tail);
        is_char_boundary_start_end_of_seq(rest);
        assert(is_char_boundary(tail, 1));
    }
}

/// `2026-09-09T04:12:31.001Z` becomes `2026-09-09 04:12`: a column has no room for more.
pub fn short_time(raw: Option<&str>) -> (r: String)
    requires
        time_can_be_shortened(slice_text(raw)),
    ensures
        r@ == short_time_text(slice_text(raw)),
{
    let s: &str = match raw {
        Some(s) => s,
        None => {
            return "-".to_owned();
        },
    };
    let ghost b = encode_utf8(s@);
    let bytes: &[u8] = s.as_bytes();
    if bytes.len() >= 16 && bytes[10] == 0x54 {
        proof {
            encode_utf8_valid_utf8(s@);
            lemma_boundaries_around_ascii(b, 10);
        }
        let (date, behind): (&str, &str) = s.split_at(10);
        let (_, rest): (&str, &str) = behind.split_at(1);
        proof {
            let r = encode_utf8(rest@);
            assert(r =~= b.subrange(11, b.len() as int));
            encode_utf8_valid_utf8(rest@);
            if b.len() == 16 {
                is_char_boundary_start_end_of_seq(r);
            } else {
                is_char_boundary_iff_not_is_continuation_byte(b, 16);
                is_char_boundary_iff_not_is_continuation_byte(r, 5);
            }
        }
        let (time, _): (&str, &str) = rest.split_at(5);
        proof {
            encode_utf8_decode_utf8(date@);
            encode_utf8_decode_utf8(time@);
            assert(encode_utf8(time@) =~= b.subrange(11, 16));
        }
        date.to_owned().concat(" ").concat(time)
    } else {
        s.to_owned()
    }
}

/// Whether [`short_time`] can take the text.
pub fn is_shortenable(raw: Option<&str>) -> (r: bool)
    ensures
        r == time_can_be_shortened(slice_text(raw)),
{
    match raw {
        Some(s) => {
            let bytes: &[u8] = s.as_bytes();
            bytes.len() < 16 || bytes[10] != 0x54 || s.is_char_boundary(16)
        },
        None => true,
    }
}

/// A time in ASCII, as servers write it, can be shortened, and what is left is its first
/// ten characters, a space, and the five behind the `T`.
pub proof fn law_ascii_time_is_shortened(raw: Seq<char>)
    requires
        is_ascii_chars(raw),
        raw.len() >= 16,
        raw[10] == 'T',
    ensures
        can_be_shortened(raw),
        short_time_text(Some(raw)) == raw.subrange(0, 10) + " "@ + raw.subrange(11, 16),
{
    let b = encode_utf8(raw);
    is_ascii_chars_encode_utf8(raw);
    encode_utf8_valid_utf8(raw);
    assert(b[10] == raw[10] as u8);
    if b.len() == 16 {
        is_char_boundary_start_end_of_seq(b);
    } else {
        is_ascii_chars_nat_bound(raw);
        assert(b[16] == raw[16] as u8);
        is_char_boundary_iff_not_is_continuation_byte(b, 16);
    }
    let (x, y) = (raw.subrange(0, 10), raw.subrange(11, 16));
    assert(is_ascii_chars(x));
    assert(is_ascii_chars(y));
    is_ascii_chars_encode_utf8(x);
    is_ascii_chars_encode_utf8(y);
    assert(b.subrange(0, 10) =~= encode_utf8(x));
    assert(b.subrange(11, 16) =~= encode_utf8(y));
    encode_utf8_decode_utf8(x);
    encode_utf8_decode_utf8(y);
}

impl Submission {
    /// The status, and the place in the queue while the submission waits there.
    pub fn display_status(&self) -> (r: String)
        ensures
            r@ == status_text(*self),
    {
        match self.queue_position {
            Some(position) => {
                let digits: String = decimal(position as u128);
                self.status.clone().concat(" (#").concat(digits.as_str()).concat(")")
            },
            None => self.status.clone(),
        }
    }

    /// The score, or a dash while there is none.
    pub fn display_score(&self) -> (r: String)
        ensures
            r@ == score_text(*self),
    {
        match &self.score {
            Some(score) => score.clone(),
            None => "-".to_owned(),
        }
    }

    /// Whether the times of the submission can be shortened.
    pub fn has_shortenable_times(&self) -> (r: bool)
        ensures
            r == times_can_be_shortened(*self),
    {
        is_shortenable(as_slice(&self.created_at)) && is_shortenable(as_slice(&self.finished_at))
    }
}

/// A status is shown whole, with the place in the queue behind it if there is one; a score
/// is shown whole, and that there is none in one way.
pub proof fn law_status_and_score_are_shown(one: Submission, other: Submission)
    ensures
        one.queue_position is None ==> status_text(one) == one.status@,
        one.queue_position is Some && other.queue_position is Some ==> same_words(
            status_text(one),
            seq![one.status@, decimal_digits(one.queue_position->0 as nat)],
            status_text(other),
            seq![other.status@, decimal_digits(other.queue_position->0 as nat)],
        ),
        one.score matches Some(score) ==> score_text(one) == score@,
        one.score is None && other.score is None ==> score_text(one) == score_text(other),
{
    if one.queue_position is Some && other.queue_position is Some {
        let no = Seq::<char>::empty();
        let x = (one.status@, decimal_digits(one.queue_position->0 as nat));
        let y = (other.status@, decimal_digits(other.queue_position->0 as nat));
        lemma_same_words_two(no, " (#"@, ")"@, x, y);
        assert(no + x.0 + " (#"@ + x.1 + ")"@ =~= status_text(one));
        assert(no + y.0 + " (#"@ + y.1 + ")"@ =~= status_text(other));
    }
}

proof fn lemma_encode_concat(a: Seq<char>, b: Seq<char>)
    ensures
        encode_utf8(a + b) == encode_utf8(a) + encode_utf8(b),
    decreases a.len(),
{
    if a.len() == 0 {
        assert(a + b =~= b);
        assert(encode_utf8(a) + encode_utf8(b) =~= encode_utf8(b));
    } else {
        assert((a + b).drop_first() =~= a.drop_first() + b);
        lemma_encode_concat(a.drop_first(), b);
        assert(encode_utf8(a + b) =~= encode_utf8(a) + encode_utf8(b));
    }
}

/// A text is shortened only if it is long enough and has a `T` behind its tenth byte; then
/// its first ten bytes are left, a space, and the five bytes behind the `T`. Every other
/// text is left as it is, whatever it holds.
pub proof fn law_times_are_shortened(raw: Seq<char>)
    ensures
        ({
            let b = encode_utf8(raw);
            if b.len() >= 16 && b[10] == 'T' as u8 {
                is_char_boundary(b, 16) ==> encode_utf8(short_time_text(Some(raw))) == b.subrange(
                    0,
                    10,
                ) + seq![' ' as u8] + b.subrange(11, 16)
            } else {
                short_time_text(Some(raw)) == raw
            }
        }),
{
    let b = encode_utf8(raw);
    if b.len() >= 16 && b[10] == 'T' as u8 && is_char_boundary(b, 16) {
        let (x, y) = (b.subrange(0, 10), b.subrange(11, 16));
        let tail = b.subrange(10, b.len() as int);
        let rest = b.subrange(11, b.len() as int);
        encode_utf8_valid_utf8(raw);
        lemma_boundaries_around_ascii(b, 10);
        valid_utf8_split(b, 10);
        valid_utf8_split(tail, 1);
        assert(tail.subrange(1, tail.len() as int) =~= rest);
        if b.len() == 16 {
            is_char_boundary_start_end_of_seq(rest);
        } else {
            is_char_boundary_iff_not_is_continuation_byte(b, 16);
            is_char_boundary_iff_not_is_continuation_byte(rest, 5);
        }
        valid_utf8_split(rest, 5);
        assert(rest.subrange(0, 5) =~= y);
        decode_utf8_encode_utf8(x);
        decode_utf8_encode_utf8(y);
        lemma_encode_concat(decode_utf8(x) + " "@, decode_utf8(y));
        lemma_encode_concat(decode_utf8(x), " "@);
        reveal_strlit(" ");
        assert(is_ascii_chars(" "@));
        is_ascii_chars_encode_utf8(" "@);
        assert(encode_utf8(" "@) =~= seq![' ' as u8]);
    }
}

/// A time can be shortened unless it is to be shortened and its minutes would end inside of
/// a character; no other text is in the way, nor that there is none.
pub proof fn law_times_that_can_be_shortened(raw: Seq<char>, one: Submission)
    ensures
        time_can_be_shortened(None),
        time_can_be_shortened(Some(raw)) <==> {
            let b = encode_utf8(raw);
            b.len() >= 16 && b[10] == 'T' as u8 ==> is_char_boundary(b, 16)
        },
        times_can_be_shortened(one) <==> time_can_be_shortened(text_of(one.created_at))
            && time_can_be_shortened(text_of(one.finished_at)),
{
}

} // verus!
