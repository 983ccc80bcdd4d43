//! Byte-level text utilities for the feed formats: whitespace handling,
//! line and token splitting, and numeric token recognition.
//!
//! All feeds handled here are ASCII, so the library works directly on bytes.

use vstd::prelude::*;
use vstd::slice::slice_subrange;

verus! {

/// ASCII whitespace, as used to separate tokens on a feed line.
pub open spec fn is_space(b: u8) -> bool {
    b == 32 || b == 9 || b == 10 || b == 13 || b == 11 || b == 12
}

/// ASCII decimal digit.
pub open spec fn is_digit(b: u8) -> bool {
    48 <= b && b <= 57
}

/// Executable whitespace test.
pub fn byte_is_space(b: u8) -> (r: bool)
    ensures
        r == is_space(b),
{
    b == 32 || b == 9 || b == 10 || b == 13 || b == 11 || b == 12
}

/// Executable digit test.
pub fn byte_is_digit(b: u8) -> (r: bool)
    ensures
        r == is_digit(b),
{
    48 <= b && b <= 57
}

/// Byte-slice equality, decided element by element.
pub fn bytes_eq(a: &[u8], b: &[u8]) -> (r: bool)
    ensures
        r == (a@ == b@),
{
    if a.len() != b.len() {
        return false;
    }
    let mut i: usize = 0;
    while i < a.len()
        invariant
            0 <= i <= a@.len(),
            a@.len() == b@.len(),
            forall|j: int| 0 <= j < i ==> a@[j] == b@[j],
        decreases a@.len() - i,
    {
        if a[i] != b[i] {
            return false;
        }
        i += 1;
    }
    proof {
        assert(a@ =~= b@);
    }
    true
}

/// `s` ends with the suffix `suf`.
pub open spec fn ends_with_spec(s: Seq<u8>, suf: Seq<u8>) -> bool {
    s.len() >= suf.len() && s.subrange(s.len() - suf.len(), s.len() as int) == suf
}

/// Executable suffix test.
pub fn ends_with(s: &[u8], suf: &[u8]) -> (r: bool)
    ensures
        r == ends_with_spec(s@, suf@),
{
    if suf.len() > s.len() {
        return false;
    }
    let tail = slice_subrange(s, s.len() - suf.len(), s.len());
    bytes_eq(tail, suf)
}

/// `s` with leading ASCII whitespace removed.
pub open spec fn trim_start_spec(s: Seq<u8>) -> Seq<u8>
    decreases s.len(),
{
    if s.len() == 0 {
        s
    } else if is_space(s[0]) {
        trim_start_spec(s.drop_first())
    } else {
        s
    }
}

/// `s` with trailing ASCII whitespace removed.
pub open spec fn trim_end_spec(s: Seq<u8>) -> Seq<u8>
    decreases s.len(),
{
    if s.len() == 0 {
        s
    } else if is_space(s.last()) {
        trim_end_spec(s.drop_last())
    } else {
        s
    }
}

/// `s` with whitespace removed on both ends.
pub open spec fn trim_spec(s: Seq<u8>) -> Seq<u8> {
    trim_end_spec(trim_start_spec(s))
}

/// Executable trim of leading whitespace; returns a subslice.
pub fn trim_start(line: &[u8]) -> (r: &[u8])
    ensures
        r@ == trim_start_spec(line@),
{
    proof {
        assert(line@.subrange(0, line@.len() as int) =~= line@);
    }
    let mut i: usize = 0;
    while i < line.len() && byte_is_space(line[i])
        invariant
            0 <= i <= line@.len(),
            trim_start_spec(line@) == trim_start_spec(line@.subrange(i as int, line@.len() as int)),
        decreases line@.len() - i,
    {
        proof {
            assert(line@.subrange(i as int, line@.len() as int).drop_first() =~= line@.subrange(
                i + 1,
                line@.len() as int,
            ));
        }
        i += 1;
    }
    slice_subrange(line, i, line.len())
}

/// Executable trim of trailing whitespace; returns a subslice.
pub fn trim_end(line: &[u8]) -> (r: &[u8])
    ensures
        r@ == trim_end_spec(line@),
{
    proof {
        assert(line@.subrange(0, line@.len() as int) =~= line@);
    }
    let mut j: usize = line.len();
    while j > 0 && byte_is_space(line[j - 1])
        invariant
            0 <= j <= line@.len(),
            trim_end_spec(line@) == trim_end_spec(line@.subrange(0, j as int)),
        decreases j,
    {
        proof {
            assert(line@.subrange(0, j as int).drop_last() =~= line@.subrange(0, j - 1));
        }
        j -= 1;
    }
    slice_subrange(line, 0, j)
}

/// Executable trim on both ends.
pub fn trim(line: &[u8]) -> (r: &[u8])
    ensures
        r@ == trim_spec(line@),
{
    trim_end(trim_start(line))
}

/// The views of a sequence of byte vectors.
pub open spec fn views_of(v: Seq<Vec<u8>>) -> Seq<Seq<u8>> {
    v.map_values(|b: Vec<u8>| b@)
}

proof fn lemma_views_of_push(v: Seq<Vec<u8>>, x: Vec<u8>)
    ensures
        views_of(v.push(x)) == views_of(v).push(x@),
{
    assert(views_of(v.push(x)) =~= views_of(v).push(x@));
}

/// A carriage return directly before a line break is part of the break.
pub open spec fn strip_cr(l: Seq<u8>) -> Seq<u8> {
    if l.len() > 0 && l.last() == 13 {
        l.drop_last()
    } else {
        l
    }
}

/// Splitting into lines, accumulator form: `cur` holds the bytes of the
/// line being read.  Lines end at a line feed; a final line needs none.
pub open spec fn lines_acc(s: Seq<u8>, cur: Seq<u8>) -> Seq<Seq<u8>>
    decreases s.len(),
{
    if s.len() == 0 {
        if cur.len() == 0 {
            Seq::empty()
        } else {
            seq![cur]
        }
    } else if s[0] == 10 {
        seq![strip_cr(cur)] + lines_acc(s.drop_first(), Seq::empty())
    } else {
        lines_acc(s.drop_first(), cur.push(s[0]))
    }
}

/// The lines of a text, with line breaks (`\n` or `\r\n`) removed.
pub open spec fn lines_spec(s: Seq<u8>) -> Seq<Seq<u8>> {
    lines_acc(s, Seq::empty())
}

/// Executable line splitting.
pub fn split_lines(text: &[u8]) -> (r: Vec<Vec<u8>>)
    ensures
        views_of(r@) == lines_spec(text@),
{
    let mut out: Vec<Vec<u8>> = Vec::new();
    let mut cur: Vec<u8> = Vec::new();
    let mut i: usize = 0;
    proof {
        assert(text@.subrange(0, text@.len() as int) =~= text@);
        assert(views_of(out@) =~= Seq::<Seq<u8>>::empty());
    }
    while i < text.len()
        invariant
            0 <= i <= text@.len(),
            lines_spec(text@) == views_of(out@) + lines_acc(
                text@.subrange(i as int, text@.len() as int),
                cur@,
            ),
        decreases text@.len() - i,
    {
        let ghost rest = text@.subrange(i as int, text@.len() as int);
        proof {
            assert(rest.drop_first() =~= text@.subrange(i + 1, text@.len() as int));
        }
        let b = text[i];
        if b == 10 {
            if cur.len() > 0 && cur[cur.len() - 1] == 13 {
                cur.pop();
            }
            let ghost old_out = out@;
            out.push(cur);
            proof {
                lemma_views_of_push(old_out, out@.last());
            }
            cur = Vec::new();
        } else {
            cur.push(b);
        }
        i += 1;
    }
    if cur.len() > 0 {
        let ghost old_out = out@;
        out.push(cur);
        proof {
            lemma_views_of_push(old_out, out@.last());
        }
    }
    out
}

/// Splitting into whitespace-separated tokens, accumulator form.
pub open spec fn tokens_acc(s: Seq<u8>, cur: Seq<u8>) -> Seq<Seq<u8>>
    decreases s.len(),
{
    if s.len() == 0 {
        if cur.len() == 0 {
            Seq::empty()
        } else {
            seq![cur]
        }
    } else if is_space(s[0]) {
        if cur.len() == 0 {
            tokens_acc(s.drop_first(), Seq::empty())
        } else {
            seq![cur] + tokens_acc(s.drop_first(), Seq::empty())
        }
    } else {
        tokens_acc(s.drop_first(), cur.push(s[0]))
    }
}

/// The whitespace-separated tokens of a line.
pub open spec fn tokens_spec(s: Seq<u8>) -> Seq<Seq<u8>> {
    tokens_acc(s, Seq::empty())
}

/// Executable token splitting.
pub fn split_tokens(line: &[u8]) -> (r: Vec<Vec<u8>>)
    ensures
        views_of(r@) == tokens_spec(line@),
{
    let mut out: Vec<Vec<u8>> = Vec::new();
    let mut cur: Vec<u8> = Vec::new();
    let mut i: usize = 0;
    proof {
        assert(line@.subrange(0, line@.len() as int) =~= line@);
        assert(views_of(out@) =~= Seq::<Seq<u8>>::empty());
    }
    while i < line.len()
        invariant
            0 <= i <= line@.len(),
            tokens_spec(line@) == views_of(out@) + tokens_acc(
                line@.subrange(i as int, line@.len() as int),
                cur@,
            ),
        decreases line@.len() - i,
    {
        let ghost rest = line@.subrange(i as int, line@.len() as int);
        proof {
            assert(rest.drop_first() =~= line@.subrange(i + 1, line@.len() as int));
        }
        let b = line[i];
        if byte_is_space(b) {
            proof {
                if cur.len() == 0 {
                    assert(cur@ =~= Seq::<u8>::empty());
                }
            }
            if cur.len() > 0 {
                let ghost old_out = out@;
                out.push(cur);
                proof {
                    lemma_views_of_push(old_out, out@.last());
                }
                cur = Vec::new();
            }
        } else {
            cur.push(b);
        }
        i += 1;
    }
    if cur.len() > 0 {
        let ghost old_out = out@;
        out.push(cur);
        proof {
            lemma_views_of_push(old_out, out@.last());
        }
    }
    out
}

/// The value of a digit string, most significant digit first.
pub open spec fn digits_val(s: Seq<u8>) -> int
    decreases s.len(),
{
    if s.len() == 0 {
        0
    } else {
        digits_val(s.drop_last()) * 10 + (s.last() - 48)
    }
}

/// Every byte of `s` is a decimal digit.
pub open spec fn all_digits(s: Seq<u8>) -> bool {
    forall|i: int| 0 <= i < s.len() ==> is_digit(s[i])
}

/// The numeral denoted by `s`, when `s` is one or more digits and the value
/// fits in 32 bits; `None` otherwise.
pub open spec fn parse_u32_spec(s: Seq<u8>) -> Option<u32> {
    if s.len() > 0 && all_digits(s) && digits_val(s) <= u32::MAX {
        Some(digits_val(s) as u32)
    } else {
        None
    }
}

proof fn lemma_digits_val_nonneg(s: Seq<u8>)
    requires
        all_digits(s),
    ensures
        digits_val(s) >= 0,
    decreases s.len(),
{
    if s.len() > 0 {
        assert(all_digits(s.drop_last()));
        lemma_digits_val_nonneg(s.drop_last());
    }
}

proof fn lemma_digits_val_prefix(s: Seq<u8>, i: int)
    requires
        all_digits(s),
        0 <= i <= s.len(),
    ensures
        digits_val(s.subrange(0, i)) <= digits_val(s),
    decreases s.len() - i,
{
    if i == s.len() {
        assert(s.subrange(0, i) =~= s);
    } else {
        let p = s.subrange(0, i);
        let q = s.subrange(0, i + 1);
        assert(q.drop_last() =~= p);
        assert(all_digits(p));
        lemma_digits_val_nonneg(p);
        assert(digits_val(q) == digits_val(p) * 10 + (s[i] - 48));
        lemma_digits_val_prefix(s, i + 1);
    }
}

/// Executable numeral parsing.
pub fn parse_u32(tok: &[u8]) -> (r: Option<u32>)
    ensures
        r == parse_u32_spec(tok@),
{
    if tok.len() == 0 {
        return None;
    }
    let mut i: usize = 0;
    let mut acc: u64 = 0;
    proof {
        assert(tok@.subrange(0, 0) =~= Seq::<u8>::empty());
    }
    while i < tok.len()
        invariant
            0 <= i <= tok@.len(),
            tok@.len() > 0,
            forall|j: int| 0 <= j < i ==> is_digit(tok@[j]),
            acc as int == digits_val(tok@.subrange(0, i as int)),
            acc <= u32::MAX,
        decreases tok@.len() - i,
    {
        let b = tok[i];
        if b < 48 || b > 57 {
            return None;
        }
        proof {
            assert(tok@.subrange(0, i + 1).drop_last() =~= tok@.subrange(0, i as int));
        }
        let next: u64 = acc * 10 + ((b - 48) as u64);
        if next > 0xFFFF_FFFF {
            proof {
                if all_digits(tok@) {
                    lemma_digits_val_prefix(tok@, i + 1);
                }
            }
            return None;
        }
        acc = next;
        i += 1;
    }
    proof {
        assert(tok@.subrange(0, tok@.len() as int) =~= tok@);
    }
    Some(acc as u32)
}

/// The number of dots in `s`.
pub open spec fn dot_count(s: Seq<u8>) -> int
    decreases s.len(),
{
    if s.len() == 0 {
        0
    } else {
        dot_count(s.drop_last()) + if s.last() == 46 {
            1int
        } else {
            0int
        }
    }
}

/// `s` without one leading sign byte, if it carries one.
pub open spec fn unsigned_part(s: Seq<u8>) -> Seq<u8> {
    if s.len() > 0 && (s[0] == 43 || s[0] == 45) {
        s.drop_first()
    } else {
        s
    }
}

/// A numeric token of the feeds: an optional sign, then digits with at most
/// one decimal point and at least one digit.  This is the library's grammar
/// for a magnitude; any such token also parses as a binary floating-point
/// number downstream.
pub open spec fn is_decimal_spec(s: Seq<u8>) -> bool {
    let t = unsigned_part(s);
    t.len() > 0 && (forall|i: int| 0 <= i < t.len() ==> is_digit(t[i]) || t[i] == 46) && dot_count(t)
        <= 1 && (exists|i: int| 0 <= i < t.len() && is_digit(t[i]))
}

/// Executable test for the numeric-token grammar.
pub fn is_decimal(tok: &[u8]) -> (r: bool)
    ensures
        r == is_decimal_spec(tok@),
{
    let start: usize = if tok.len() > 0 && (tok[0] == 43 || tok[0] == 45) {
        1
    } else {
        0
    };
    let t = slice_subrange(tok, start, tok.len());
    proof {
        if start == 1 {
            assert(t@ =~= tok@.drop_first());
        } else {
            assert(t@ =~= tok@);
        }
    }
    if t.len() == 0 {
        return false;
    }
    let mut i: usize = 0;
    let mut dots: usize = 0;
    let mut has_digit: bool = false;
    proof {
        assert(t@.subrange(0, 0) =~= Seq::<u8>::empty());
    }
    while i < t.len()
        invariant
            t@ == unsigned_part(tok@),
            t@.len() > 0,
            0 <= i <= t@.len(),
            dots as int == dot_count(t@.subrange(0, i as int)),
            dots <= i,
            has_digit == exists|j: int| 0 <= j < i && is_digit(t@[j]),
            forall|j: int| 0 <= j < i ==> is_digit(t@[j]) || t@[j] == 46,
        decreases t@.len() - i,
    {
        let b = t[i];
        proof {
            assert(t@.subrange(0, i + 1).drop_last() =~= t@.subrange(0, i as int));
        }
        if byte_is_digit(b) {
            has_digit = true;
        } else if b == 46 {
            dots += 1;
        } else {
            return false;
        }
        i += 1;
    }
    proof {
        assert(t@.subrange(0, t@.len() as int) =~= t@);
    }
    dots <= 1 && has_digit
}

} // verus!
