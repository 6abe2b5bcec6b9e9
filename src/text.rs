//! Character-level helpers: splitting a line into whitespace-separated
//! fields and reading unsigned decimal numbers.
use vstd::prelude::*;
use vstd::string::StrSliceExecFns;
use vstd::std_specs::iter::IteratorSpec;

verus! {

broadcast use {vstd::string::axiom_spec_iter, vstd::string::next_postcondition};

/// Collects the characters of `s` in order.
pub fn chars_of(s: &str) -> (r: Vec<char>)
    ensures
        r@ == s@,
{
    let n = s.unicode_len();
    let mut it = s.chars();
    let mut out: Vec<char> = Vec::new();
    while out.len() < n
        invariant
            it.obeys_prophetic_iter_laws(),
            n == s@.len(),
            out.len() <= n,
            out@ + it.remaining() == s@,
        decreases n - out.len(),
    {
        match it.next() {
            Some(c) => {
                out.push(c);
            },
            None => {
                assert(false);
            },
        }
    }
    assert(out@ + it.remaining() =~= out@);
    out
}

/// The characters that carry the Unicode `White_Space` property.
pub open spec fn is_space_spec(c: char) -> bool {
    let u = c as u32;
    (0x09 <= u <= 0x0d) || u == 0x20 || u == 0x85 || u == 0xa0 || u == 0x1680 || (0x2000 <= u
        <= 0x200a) || u == 0x2028 || u == 0x2029 || u == 0x202f || u == 0x205f || u == 0x3000
}

/// Whether `c` separates fields.
pub fn is_space(c: char) -> (r: bool)
    ensures
        r == is_space_spec(c),
{
    let u = c as u32;
    (0x09 <= u && u <= 0x0d) || u == 0x20 || u == 0x85 || u == 0xa0 || u == 0x1680 || (0x2000
        <= u && u <= 0x200a) || u == 0x2028 || u == 0x2029 || u == 0x202f || u == 0x205f || u
        == 0x3000
}

/// The maximal runs of non-space characters of `s`, left to right.
pub open spec fn fields(s: Seq<char>) -> Seq<Seq<char>>
    decreases s.len(),
{
    if s.len() == 0 {
        seq![]
    } else {
        let prev = fields(s.drop_last());
        let c = s.last();
        if is_space_spec(c) {
            prev
        } else if s.len() >= 2 && !is_space_spec(s[s.len() - 2]) {
            prev.update(prev.len() - 1, prev.last().push(c))
        } else {
            prev.push(seq![c])
        }
    }
}

/// Every field is non-empty.
pub proof fn lemma_fields_nonempty(s: Seq<char>)
    ensures
        forall|i: int| 0 <= i < fields(s).len() ==> fields(s)[i].len() > 0,
        s.len() > 0 && !is_space_spec(s.last()) ==> fields(s).len() > 0,
    decreases s.len(),
{
    if s.len() > 0 {
        let t = s.drop_last();
        lemma_fields_nonempty(t);
        let prev = fields(t);
        if !is_space_spec(s.last()) && s.len() >= 2 && !is_space_spec(s[s.len() - 2]) {
            assert(t.last() == s[s.len() - 2]);
            assert(prev.len() > 0);
            assert forall|i: int| 0 <= i < fields(s).len() implies fields(s)[i].len() > 0 by {
                if i == prev.len() - 1 {
                    assert(fields(s)[i] == prev.last().push(s.last()));
                } else {
                    assert(fields(s)[i] == prev[i]);
                }
            }
        }
    }
}

/// Splits `s` at whitespace, dropping empty fields.
pub fn split_fields(s: &Vec<char>) -> (r: Vec<Vec<char>>)
    ensures
        r@.map_values(|f: Vec<char>| f@) == fields(s@),
{
    let mut out: Vec<Vec<char>> = Vec::new();
    let mut i: usize = 0;
    while i < s.len()
        invariant
            i <= s.len(),
            out@.map_values(|f: Vec<char>| f@) == fields(s@.take(i as int)),
        decreases s.len() - i,
    {
        let c = s[i];
        proof {
            lemma_fields_nonempty(s@.take(i as int));
            let u = s@.take(i as int + 1);
            assert(u.drop_last() =~= s@.take(i as int));
            assert(u.last() == c);
            if i >= 1 {
                assert(u[u.len() - 2] == s@[i - 1]);
            }
        }
        let ghost prev = out@.map_values(|f: Vec<char>| f@);
        if is_space(c) {
        } else if i >= 1 && !is_space(s[i - 1]) {
            proof {
                assert(s@.take(i as int).last() == s@[i - 1]);
            }
            let last = out.len() - 1;
            let mut f = out.remove(last);
            f.push(c);
            out.push(f);
            assert(out@.map_values(|f: Vec<char>| f@) =~= prev.update(
                prev.len() - 1,
                prev.last().push(c),
            ));
        } else {
            let f = vec![c];
            assert(f@ =~= seq![c]);
            out.push(f);
            assert(out@.map_values(|f: Vec<char>| f@) =~= prev.push(seq![c]));
        }
        i = i + 1;
        assert(out@.map_values(|f: Vec<char>| f@) =~= fields(s@.take(i as int)));
    }
    assert(s@.take(s.len() as int) =~= s@);
    out
}

pub open spec fn is_decimal_digit(c: char) -> bool {
    '0' <= c <= '9'
}

/// The value of a run of decimal digits, most significant first.
pub open spec fn decimal_value(t: Seq<char>) -> nat
    decreases t.len(),
{
    if t.len() == 0 {
        0
    } else {
        decimal_value(t.drop_last()) * 10 + (t.last() as nat - '0' as nat) as nat
    }
}

/// The digits of an unsigned number written with an optional leading `+`.
pub open spec fn unsigned_digits(t: Seq<char>) -> Seq<char> {
    if t.len() > 0 && t[0] == '+' {
        t.skip(1)
    } else {
        t
    }
}

/// Whether `t` is an unsigned decimal number: an optional `+`, then at least
/// one digit and nothing else.
pub open spec fn is_unsigned_text(t: Seq<char>) -> bool {
    unsigned_digits(t).len() > 0 && all_decimal(unsigned_digits(t))
}

pub open spec fn all_decimal(d: Seq<char>) -> bool {
    forall|i: int| 0 <= i < d.len() ==> is_decimal_digit(#[trigger] d[i])
}

/// The number `t` writes, when it writes one that fits in `usize`.
pub open spec fn parsed_usize(t: Seq<char>) -> Option<usize> {
    if is_unsigned_text(t) && decimal_value(unsigned_digits(t)) <= usize::MAX {
        Some(decimal_value(unsigned_digits(t)) as usize)
    } else {
        None
    }
}

proof fn lemma_decimal_value_grows(t: Seq<char>, i: int)
    requires
        0 <= i <= t.len(),
        forall|k: int| 0 <= k < t.len() ==> is_decimal_digit(#[trigger] t[k]),
    ensures
        decimal_value(t.take(i)) <= decimal_value(t),
    decreases t.len() - i,
{
    if i < t.len() {
        lemma_decimal_value_grows(t, i + 1);
        assert(t.take(i + 1).drop_last() =~= t.take(i));
    } else {
        assert(t.take(i) =~= t);
    }
}

/// Reads an unsigned decimal number; `None` when `t` is not one or it does
/// not fit in `usize`.
pub fn parse_usize(t: &Vec<char>) -> (r: Option<usize>)
    ensures
        r == parsed_usize(t@),
{
    let start: usize = if t.len() > 0 && t[0] == '+' {
        1
    } else {
        0
    };
    let ghost d = unsigned_digits(t@);
    assert(d =~= t@.skip(start as int));
    if start >= t.len() {
        return None;
    }
    let mut value: usize = 0;
    let mut i: usize = start;
    while i < t.len()
        invariant
            start <= i <= t.len(),
            d == t@.skip(start as int),
            d == unsigned_digits(t@),
            value == decimal_value(d.take(i - start)),
            forall|k: int| 0 <= k < i - start ==> is_decimal_digit(#[trigger] d[k]),
        decreases t.len() - i,
    {
        let c = t[i];
        proof {
            assert(d.take(i - start + 1).drop_last() =~= d.take(i - start));
            assert(d.take(i - start + 1).last() == c);
            assert(d[i - start] == c);
        }
        if !('0' <= c && c <= '9') {
            assert(!is_decimal_digit(d[i - start]));
            assert(!all_decimal(d));
            return None;
        }
        let digit = (c as u32 - '0' as u32) as usize;
        if value > (usize::MAX - digit) / 10 {
            proof {
                assert forall|k: int| 0 <= k < i - start + 1 implies is_decimal_digit(
                    #[trigger] d.take(i - start + 1)[k],
                ) by {
                    if k == i - start {
                    } else {
                        assert(d.take(i - start + 1)[k] == d[k]);
                    }
                }
                if is_unsigned_text(t@) {
                    assert(all_decimal(d));
                    lemma_decimal_value_grows(d, i - start + 1);
                }
                assert(decimal_value(d.take(i - start + 1)) == value * 10 + digit) by (nonlinear_arith)
                    requires
                        decimal_value(d.take(i - start + 1)) == decimal_value(d.take(i - start))
                            * 10 + digit,
                        value == decimal_value(d.take(i - start)),
                ;
                assert(value * 10 + digit > usize::MAX) by (nonlinear_arith)
                    requires
                        value > (usize::MAX - digit) / 10,
                        digit <= 9,
                ;
            }
            return None;
        }
        proof {
            assert(value * 10 + digit <= usize::MAX) by (nonlinear_arith)
                requires
                    value <= (usize::MAX - digit) / 10,
                    digit <= 9,
            ;
        }
        value = value * 10 + digit;
        i = i + 1;
    }
    assert(d.take(i - start) =~= d);
    Some(value)
}

} // verus!
