//! Text primitives: what the rest of the crate reads from strings and builds them with.
//!
//! Every contract here speaks of the sequence of characters that a string holds.
//! A width is a number of characters, never a number of bytes.

use vstd::prelude::*;

verus! {

/// `String::push` appends the given character to the end of the string, and
/// changes nothing else.
pub assume_specification[ String::push ](s: &mut String, c: char)
    ensures
        final(s)@ == old(s)@.push(c),
;

/// The characters with the Unicode property White_Space.
pub open spec fn is_white_space(c: char) -> bool {
    ||| 0x09 <= c as u32 <= 0x0d
    ||| c as u32 == 0x20
    ||| c as u32 == 0x85
    ||| c as u32 == 0xa0
    ||| c as u32 == 0x1680
    ||| 0x2000 <= c as u32 <= 0x200a
    ||| c as u32 == 0x2028
    ||| c as u32 == 0x2029
    ||| c as u32 == 0x202f
    ||| c as u32 == 0x205f
    ||| c as u32 == 0x3000
}

/// `s` without the white space at its start.
pub open spec fn trimmed_start(s: Seq<char>) -> Seq<char>
    decreases s.len(),
{
    if s.len() > 0 && is_white_space(s.first()) {
        trimmed_start(s.drop_first())
    } else {
        s
    }
}

/// `s` without the white space at its end.
pub open spec fn trimmed_end(s: Seq<char>) -> Seq<char>
    decreases s.len(),
{
    if s.len() > 0 && is_white_space(s.last()) {
        trimmed_end(s.drop_last())
    } else {
        s
    }
}

/// `s` without the white space around it.
pub open spec fn trimmed(s: Seq<char>) -> Seq<char> {
    trimmed_end(trimmed_start(s))
}

/// `s` without the run of `c` at its end.
pub open spec fn without_trailing(s: Seq<char>, c: char) -> Seq<char>
    decreases s.len(),
{
    if s.len() > 0 && s.last() == c {
        without_trailing(s.drop_last(), c)
    } else {
        s
    }
}

/// `part` stands in `s` at position `at`.
pub open spec fn occurs_at(part: Seq<char>, s: Seq<char>, at: int) -> bool {
    &&& 0 <= at
    &&& at + part.len() <= s.len()
    &&& s.subrange(at, at + part.len()) == part
}

/// `part` stands somewhere in `s`.
pub open spec fn occurs(part: Seq<char>, s: Seq<char>) -> bool {
    exists|at: int| occurs_at(part, s, at)
}

/// `n` times the character `c`.
pub open spec fn repeated(c: char, n: nat) -> Seq<char> {
    Seq::new(n, |i: int| c)
}

/// `cell`, filled up on the right with spaces to at least `width` characters.
pub open spec fn padded(cell: Seq<char>, width: nat) -> Seq<char> {
    if cell.len() >= width {
        cell
    } else {
        cell + repeated(' ', (width - cell.len()) as nat)
    }
}

/// The parts in order, with `separator` between each two of them.
pub open spec fn joined(parts: Seq<Seq<char>>, separator: Seq<char>) -> Seq<char>
    decreases parts.len(),
{
    if parts.len() == 0 {
        Seq::empty()
    } else if parts.len() == 1 {
        parts[0]
    } else {
        joined(parts.drop_last(), separator) + separator + parts.last()
    }
}

/// The decimal digit for `d`.
pub open spec fn digit(d: nat) -> char
    recommends
        d < 10,
{
    (0x30 + d) as char
}

/// `n` in decimal, without leading zeros.
pub open spec fn decimal_digits(n: nat) -> Seq<char>
    decreases n,
{
    if n < 10 {
        seq![digit(n)]
    } else {
        decimal_digits(n / 10).push(digit(n % 10))
    }
}

/// What each of the strings holds.
pub open spec fn texts(strings: Seq<String>) -> Seq<Seq<char>> {
    strings.map_values(|s: String| s@)
}

/// A string behind the others adds what it holds.
pub proof fn lemma_texts_push(strings: Seq<String>, s: String)
    ensures
        texts(strings.push(s)) == texts(strings).push(s@),
{
    assert(texts(strings.push(s)) =~= texts(strings).push(s@));
}

/// What an optional string holds.
pub open spec fn text_of(s: Option<String>) -> Option<Seq<char>> {
    match s {
        Some(t) => Some(t@),
        None => None,
    }
}

/// What an optional string slice holds.
pub open spec fn slice_text(s: Option<&str>) -> Option<Seq<char>> {
    match s {
        Some(t) => Some(t@),
        None => None,
    }
}

/// An optional string as a slice.
pub fn as_slice(s: &Option<String>) -> (r: Option<&str>)
    ensures
        slice_text(r) == text_of(*s),
{
    match s {
        Some(t) => Some(t.as_str()),
        None => None,
    }
}

/// Whether `c` has the Unicode property White_Space.
pub fn white_space(c: char) -> (r: bool)
    ensures
        r == is_white_space(c),
{
    let u: u32 = c as u32;
    (0x09 <= u && u <= 0x0d) || u == 0x20 || u == 0x85 || u == 0xa0 || u == 0x1680 || (0x2000 <= u
        && u <= 0x200a) || u == 0x2028 || u == 0x2029 || u == 0x202f || u == 0x205f || u == 0x3000
}

/// The characters of a string, one by one.
pub fn characters(s: &str) -> (r: Vec<char>)
    ensures
        r@ == s@,
{
    let mut r: Vec<char> = Vec::new();
    for c in it: s.chars()
        invariant
            r@ == it.seq().take(it.index() as int),
            it.seq() == s@,
    {
        r.push(c);
    }
    r
}

/// Whether two strings hold the same text.
pub fn same_text(a: &str, b: &str) -> (r: bool)
    ensures
        r == (a@ == b@),
{
    a.to_owned() == b.to_owned()
}

/// `s` without the white space at its end.
pub fn trim_end(s: &str) -> (r: String)
    ensures
        r@ == trimmed_end(s@),
{
    let v: Vec<char> = characters(s);
    let mut to: usize = v.len();
    assert(s@.take(to as int) == s@);
    while to > 0 && white_space(v[to - 1])
        invariant
            v@ == s@,
            to <= v.len(),
            trimmed_end(s@.take(to as int)) == trimmed_end(s@),
        decreases to,
    {
        assert(s@.take(to as int).drop_last() == s@.take(to - 1));
        to = to - 1;
    }
    s.substring_char(0, to).to_owned()
}

/// `s` without the white space around it.
pub fn trim(s: &str) -> (r: String)
    ensures
        r@ == trimmed(s@),
{
    let v: Vec<char> = characters(s);
    let n: usize = v.len();
    let mut from: usize = 0;
    assert(s@.skip(0) == s@);
    while from < n && white_space(v[from])
        invariant
            v@ == s@,
            n == v.len(),
            from <= n,
            trimmed_start(s@.skip(from as int)) == trimmed_start(s@),
        decreases n - from,
    {
        assert(s@.skip(from as int).drop_first() == s@.skip(from + 1));
        from = from + 1;
    }
    let rest: &str = s.substring_char(from, n);
    assert(rest@ == s@.skip(from as int));
    trim_end(rest)
}

/// `s` without the run of `c` at its end.
pub fn trim_end_matches(s: &str, c: char) -> (r: String)
    ensures
        r@ == without_trailing(s@, c),
{
    let v: Vec<char> = characters(s);
    let mut to: usize = v.len();
    assert(s@.take(to as int) == s@);
    while to > 0 && v[to - 1] == c
        invariant
            v@ == s@,
            to <= v.len(),
            without_trailing(s@.take(to as int), c) == without_trailing(s@, c),
        decreases to,
    {
        assert(s@.take(to as int).drop_last() == s@.take(to - 1));
        to = to - 1;
    }
    s.substring_char(0, to).to_owned()
}

/// Whether `part` stands in `s` at position `at`.
fn stands_at(part: &Vec<char>, s: &Vec<char>, at: usize) -> (r: bool)
    requires
        at + part.len() <= s.len(),
    ensures
        r == occurs_at(part@, s@, at as int),
{
    let mut i: usize = 0;
    while i < part.len()
        invariant
            i <= part.len(),
            at + part.len() <= s.len(),
            forall|j: int| 0 <= j < i ==> s@[at + j] == part@[j],
        decreases part.len() - i,
    {
        if s[at + i] != part[i] {
            assert(s@.subrange(at as int, at + part.len())[i as int] != part@[i as int]);
            return false;
        }
        i = i + 1;
    }
    assert(s@.subrange(at as int, at + part.len()) == part@);
    true
}

/// Whether `s` begins with `prefix`.
pub fn starts_with(s: &str, prefix: &str) -> (r: bool)
    ensures
        r == prefix@.is_prefix_of(s@),
{
    let v: Vec<char> = characters(s);
    let p: Vec<char> = characters(prefix);
    p.len() <= v.len() && stands_at(&p, &v, 0)
}

/// Whether `part` stands somewhere in `s`.
pub fn contains(s: &str, part: &str) -> (r: bool)
    ensures
        r == occurs(part@, s@),
{
    let v: Vec<char> = characters(s);
    let p: Vec<char> = characters(part);
    if p.len() > v.len() {
        return false;
    }
    let mut at: usize = 0;
    while at <= v.len() - p.len()
        invariant
            v@ == s@,
            p@ == part@,
            p.len() <= v.len(),
            at <= v.len() - p.len() + 1,
            forall|k: int| 0 <= k < at ==> !occurs_at(part@, s@, k),
        decreases v.len() - p.len() + 1 - at,
    {
        if stands_at(&p, &v, at) {
            return true;
        }
        assert(p.len() != 0) by {
            if p.len() == 0 {
                assert(s@.subrange(at as int, at as int) == part@);
            }
        }
        at = at + 1;
    }
    false
}

/// `n` times the character `c`.
pub fn repeat(c: char, n: usize) -> (r: String)
    ensures
        r@ == repeated(c, n as nat),
{
    let mut r: String = String::new();
    let mut i: usize = 0;
    while i < n
        invariant
            i <= n,
            r@ == repeated(c, i as nat),
        decreases n - i,
    {
        r.push(c);
        i = i + 1;
        assert(r@ == repeated(c, i as nat));
    }
    r
}

/// `cell`, filled up on the right with spaces to at least `width` characters.
pub fn pad(cell: &str, width: usize) -> (r: String)
    ensures
        r@ == padded(cell@, width as nat),
{
    let count: usize = cell.unicode_len();
    if count >= width {
        cell.to_owned()
    } else {
        let fill: String = repeat(' ', width - count);
        cell.to_owned().concat(fill.as_str())
    }
}

/// The parts in order, with `separator` between each two of them.
pub fn join(parts: &Vec<String>, separator: &str) -> (r: String)
    ensures
        r@ == joined(texts(parts@), separator@),
{
    let mut r: String = String::new();
    let mut i: usize = 0;
    let ghost all = texts(parts@);
    assert(all.take(0) == Seq::<Seq<char>>::empty());
    while i < parts.len()
        invariant
            i <= parts.len(),
            all == texts(parts@),
            r@ == joined(all.take(i as int), separator@),
        decreases parts.len() - i,
    {
        assert(all.take(i + 1).drop_last() == all.take(i as int));
        assert(all.take(i + 1).last() == parts@[i as int]@);
        if i > 0 {
            r.append(separator);
        }
        r.append(parts[i].as_str());
        i = i + 1;
        assert(r@ == joined(all.take(i as int), separator@));
    }
    assert(all.take(i as int) == all);
    r
}

/// The decimal digit for `d`.
fn decimal_digit(d: u128) -> (c: char)
    requires
        d < 10,
    ensures
        c == digit(d as nat),
{
    (0x30u8 + d as u8) as char
}

/// `n` in decimal, without leading zeros.
pub fn decimal(n: u128) -> (r: String)
    ensures
        r@ == decimal_digits(n as nat),
    decreases n,
{
    if n < 10 {
        let mut r: String = String::new();
        r.push(decimal_digit(n));
        assert(r@ == seq![digit(n as nat)]);
        r
    } else {
        let mut r: String = decimal(n / 10);
        r.push(decimal_digit(n % 10));
        r
    }
}

/// Trimming the end leaves the beginning of a text and takes off white space alone, and
/// all of it that stands at the end.
pub proof fn law_trimmed_end(s: Seq<char>)
    ensures
        trimmed_end(s).is_prefix_of(s),
        trimmed_end(s).len() <= s.len(),
        forall|i: int| trimmed_end(s).len() <= i < s.len() ==> is_white_space(#[trigger] s[i]),
        trimmed_end(s).len() > 0 ==> !is_white_space(trimmed_end(s).last()),
    decreases s.len(),
{
    if s.len() > 0 && is_white_space(s.last()) {
        let front = s.drop_last();
        let t = trimmed_end(front);
        law_trimmed_end(front);
        assert(s.subrange(0, t.len() as int) =~= front.subrange(0, t.len() as int));
        assert forall|i: int| t.len() <= i < s.len() implies is_white_space(#[trigger] s[i]) by {
            if i < front.len() {
                assert(front[i] == s[i]);
            }
        }
    } else {
        assert(s.subrange(0, s.len() as int) =~= s);
    }
}

proof fn lemma_trimmed_start(s: Seq<char>) -> (from: int)
    ensures
        0 <= from <= s.len(),
        trimmed_start(s) == s.skip(from),
        forall|i: int| 0 <= i < from ==> is_white_space(#[trigger] s[i]),
        from < s.len() ==> !is_white_space(s[from]),
    decreases s.len(),
{
    if s.len() > 0 && is_white_space(s.first()) {
        let rest = s.drop_first();
        let k = lemma_trimmed_start(rest);
        assert(rest.skip(k) =~= s.skip(k + 1));
        assert forall|i: int| 0 <= i < k + 1 implies is_white_space(#[trigger] s[i]) by {
            if i > 0 {
                assert(rest[i - 1] == s[i]);
            }
        }
        k + 1
    } else {
        assert(s.skip(0) =~= s);
        0
    }
}

/// Part `from..to` of a text is all of it but the white space around it.
pub open spec fn is_core(s: Seq<char>, from: int, to: int) -> bool {
    &&& 0 <= from <= to <= s.len()
    &&& forall|i: int| 0 <= i < from || to <= i < s.len() ==> is_white_space(#[trigger] s[i])
    &&& from < to ==> !is_white_space(s[from]) && !is_white_space(s[to - 1])
}

/// Trimming leaves all of a text but the white space around it.
pub proof fn law_trimmed(s: Seq<char>)
    ensures
        exists|from: int, to: int| #[trigger] is_core(s, from, to) && trimmed(s) == s.subrange(
            from,
            to,
        ),
        trimmed(s).len() == 0 <==> forall|i: int| 0 <= i < s.len() ==> is_white_space(#[trigger] s[i]),
{
    let from = lemma_trimmed_start(s);
    let rest = s.skip(from);
    law_trimmed_end(rest);
    let to = from + trimmed_end(rest).len();
    assert(trimmed(s) =~= s.subrange(from, to)) by {
        assert(trimmed(s) == rest.subrange(0, to - from));
    }
    assert forall|i: int| 0 <= i < from || to <= i < s.len() implies is_white_space(
        #[trigger] s[i],
    ) by {
        if i >= to {
            assert(rest[i - from] == s[i]);
        }
    }
    if from < to {
        assert(trimmed(s).last() == s[to - 1]);
    }
    assert(is_core(s, from, to));
}

/// Taking a run of one character off the end leaves the beginning of the text, takes off
/// that character alone, and leaves none of them at the end.
pub proof fn law_without_trailing(s: Seq<char>, c: char)
    ensures
        without_trailing(s, c).is_prefix_of(s),
        without_trailing(s, c).len() <= s.len(),
        forall|i: int| without_trailing(s, c).len() <= i < s.len() ==> #[trigger] s[i] == c,
        without_trailing(s, c).len() > 0 ==> without_trailing(s, c).last() != c,
    decreases s.len(),
{
    if s.len() > 0 && s.last() == c {
        let front = s.drop_last();
        let t = without_trailing(front, c);
        law_without_trailing(front, c);
        assert(s.subrange(0, t.len() as int) =~= front.subrange(0, t.len() as int));
        assert forall|i: int| t.len() <= i < s.len() implies #[trigger] s[i] == c by {
            if i < front.len() {
                assert(front[i] == s[i]);
            }
        }
    } else {
        assert(s.subrange(0, s.len() as int) =~= s);
    }
}

/// A text holds a part exactly if it is something, the part, and something.
pub proof fn law_occurs(part: Seq<char>, s: Seq<char>)
    ensures
        occurs(part, s) <==> exists|before: Seq<char>, after: Seq<char>|
            s == #[trigger] (before + part + after),
{
    if occurs(part, s) {
        let at = choose|at: int| occurs_at(part, s, at);
        assert(s =~= s.take(at) + part + s.skip(at + part.len()));
    }
    if exists|before: Seq<char>, after: Seq<char>| s == #[trigger] (before + part + after) {
        let (before, after) = choose|before: Seq<char>, after: Seq<char>|
            s == #[trigger] (before + part + after);
        assert(s.subrange(before.len() as int, (before.len() + part.len()) as int) =~= part);
        assert(occurs_at(part, s, before.len() as int));
    }
}

/// Filling a text up keeps it whole, puts nothing but spaces behind it, and makes it as
/// wide as asked unless it is wider.
pub proof fn law_padded(cell: Seq<char>, width: nat)
    ensures
        cell.is_prefix_of(padded(cell, width)),
        padded(cell, width).len() == if cell.len() < width {
            width
        } else {
            cell.len()
        },
        forall|i: int| cell.len() <= i < padded(cell, width).len() ==> #[trigger] padded(
            cell,
            width,
        )[i] == ' ',
{
    assert(padded(cell, width).subrange(0, cell.len() as int) =~= cell);
}

/// A repeated character is there so often, and nothing else is.
pub proof fn law_repeated(c: char, n: nat)
    ensures
        repeated(c, n).len() == n,
        forall|i: int| 0 <= i < n ==> #[trigger] repeated(c, n)[i] == c,
{
}

/// One part joined is that part; and where parts follow other parts, the joined text is
/// that of the first ones, the separator, and that of the others.
pub proof fn law_joined(a: Seq<Seq<char>>, b: Seq<Seq<char>>, part: Seq<char>, separator: Seq<char>)
    ensures
        joined(seq![part], separator) == part,
        joined(Seq::empty(), separator).len() == 0,
        a.len() > 0 && b.len() > 0 ==> joined(a + b, separator) == joined(a, separator) + separator
            + joined(b, separator),
    decreases b.len(),
{
    if a.len() > 0 && b.len() == 1 {
        assert((a + b).drop_last() =~= a);
    } else if a.len() > 0 && b.len() > 1 {
        assert((a + b).drop_last() =~= a + b.drop_last());
        law_joined(a, b.drop_last(), part, separator);
        assert(joined(a + b, separator) =~= joined(a, separator) + separator + joined(
            b,
            separator,
        ));
    }
}

/// The number that a text of decimal digits stands for.
pub open spec fn decimal_value(s: Seq<char>) -> int
    decreases s.len(),
{
    if s.len() == 0 {
        0
    } else {
        decimal_value(s.drop_last()) * 10 + (s.last() as int - '0' as int)
    }
}

/// A number in decimal is made of digits that stand for it, without a zero in front.
pub proof fn law_decimal_digits(n: nat)
    ensures
        decimal_value(decimal_digits(n)) == n,
        decimal_digits(n).len() > 0,
        forall|i: int| 0 <= i < decimal_digits(n).len() ==> '0' <= #[trigger] decimal_digits(n)[i]
            <= '9',
        decimal_digits(n)[0] == '0' ==> n == 0,
    decreases n,
{
    let s = decimal_digits(n);
    if n < 10 {
        assert(s.drop_last() =~= Seq::<char>::empty());
        reveal_with_fuel(decimal_value, 2);
    } else {
        law_decimal_digits(n / 10);
        assert(s.drop_last() =~= decimal_digits(n / 10));
        assert(s[0] == decimal_digits(n / 10)[0]);
    }
}

/// What strings hold is what each of them holds, one by one.
pub proof fn law_texts(strings: Seq<String>, s: String)
    ensures
        texts(strings).len() == strings.len(),
        forall|i: int| 0 <= i < strings.len() ==> #[trigger] texts(strings)[i] == strings[i]@,
        text_of(Some(s)) == Some(s@),
        text_of(None) is None,
{
}

/// What an optional slice holds is what the slice holds.
pub proof fn law_slice_text(s: &str)
    ensures
        slice_text(Some(s)) == Some(s@),
        slice_text(None) is None,
{
}

/// The words of a template with the values between them: first a word, then a value and a
/// word, and so on.
pub open spec fn written(words: Seq<Seq<char>>, values: Seq<Seq<char>>) -> Seq<char>
    decreases values.len(),
{
    if values.len() == 0 {
        words[0]
    } else {
        written(words, values.drop_last()) + values.last() + words[values.len() as int]
    }
}

/// Two texts say the same of different values: each value stands whole and unchanged
/// between words that are the same in both.
pub open spec fn same_words(
    a: Seq<char>,
    a_values: Seq<Seq<char>>,
    b: Seq<char>,
    b_values: Seq<Seq<char>>,
) -> bool {
    exists|words: Seq<Seq<char>>|
        a == #[trigger] written(words, a_values) && b == written(words, b_values)
}

/// One value between two words.
pub proof fn lemma_same_words(p: Seq<char>, q: Seq<char>, x: Seq<char>, y: Seq<char>)
    ensures
        same_words(p + x + q, seq![x], p + y + q, seq![y]),
{
    let words = seq![p, q];
    lemma_written(words, x);
    lemma_written(words, y);
}

proof fn lemma_written(words: Seq<Seq<char>>, x: Seq<char>)
    ensures
        written(words, seq![x]) == words[0] + x + words[1],
{
    reveal_with_fuel(written, 2);
    assert(seq![x].drop_last() =~= Seq::<Seq<char>>::empty());
}

/// Two values between three words.
pub proof fn lemma_same_words_two(
    p: Seq<char>,
    q: Seq<char>,
    r: Seq<char>,
    x: (Seq<char>, Seq<char>),
    y: (Seq<char>, Seq<char>),
)
    ensures
        same_words(
            p + x.0 + q + x.1 + r,
            seq![x.0, x.1],
            p + y.0 + q + y.1 + r,
            seq![y.0, y.1],
        ),
{
    let words = seq![p, q, r];
    lemma_written_two(words, x.0, x.1);
    lemma_written_two(words, y.0, y.1);
}

proof fn lemma_written_two(words: Seq<Seq<char>>, x: Seq<char>, y: Seq<char>)
    ensures
        written(words, seq![x, y]) == words[0] + x + words[1] + y + words[2],
{
    assert(seq![x, y].drop_last() =~= seq![x]);
    lemma_written(words, x);
}

} // verus!
