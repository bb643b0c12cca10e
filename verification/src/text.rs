//! Verified text utilities for the command boundary: splitting a delimited
//! payload into tokens, stripping a token's enclosing delimiter characters,
//! and reading and writing decimal process ids.
use vstd::prelude::*;
use vstd::string::StrSliceExecFns;
use vstd::string::StringExecFns;

verus! {

/// The characters of `s` with the first and the last removed; empty when `s`
/// has fewer than two characters.
pub open spec fn trim_ends(s: Seq<char>) -> Seq<char> {
    if s.len() <= 1 {
        Seq::empty()
    } else {
        s.subrange(1, s.len() - 1)
    }
}

/// Strips the first and last character of a token; the inbound payloads
/// enclose their trailing field in one delimiter character on each side.
pub fn rem_first_and_last(value: &str) -> (r: &str)
    ensures
        r@ == trim_ends(value@),
{
    let n = value.unicode_len();
    if n <= 1 {
        let r = value.substring_char(0, 0);
        proof {
            assert(r@ =~= trim_ends(value@));
        }
        r
    } else {
        let r = value.substring_char(1, n - 1);
        proof {
            assert(r@ =~= trim_ends(value@));
        }
        r
    }
}

/// The tokens obtained by splitting `s` on the delimiter `d`: the maximal
/// (possibly empty) runs of characters between delimiter occurrences, with a
/// leading and a trailing empty token when `s` starts or ends with `d`.
/// Splitting the empty sequence yields one empty token.
pub open spec fn split_char(s: Seq<char>, d: char) -> Seq<Seq<char>>
    decreases s.len(),
{
    if s.len() == 0 {
        seq![Seq::<char>::empty()]
    } else {
        let rest = split_char(s.drop_last(), d);
        if s.last() == d {
            rest.push(Seq::empty())
        } else {
            rest.update(rest.len() - 1, rest.last().push(s.last()))
        }
    }
}

/// Splitting always yields at least one token.
pub proof fn lemma_split_char_nonempty(s: Seq<char>, d: char)
    ensures
        split_char(s, d).len() >= 1,
    decreases s.len(),
{
    if s.len() > 0 {
        lemma_split_char_nonempty(s.drop_last(), d);
    }
}

/// Splits a payload into its delimited tokens, as `split_char` describes.
pub fn split_on(s: &str, d: char) -> (r: Vec<String>)
    ensures
        r@.map_values(|t: String| t@) == split_char(s@, d),
{
    let n = s.unicode_len();
    let mut tokens: Vec<String> = Vec::new();
    let mut start: usize = 0;
    let mut i: usize = 0;
    proof {
        assert(s@.subrange(0, 0) =~= Seq::<char>::empty());
        assert(tokens@.map_values(|t: String| t@).push(s@.subrange(0, 0))
            =~= split_char(s@.subrange(0, 0), d));
    }
    while i < n
        invariant
            start <= i <= n,
            n == s@.len(),
            tokens@.map_values(|t: String| t@).push(s@.subrange(start as int, i as int))
                == split_char(s@.subrange(0, i as int), d),
        decreases n - i,
    {
        let ghost prefix = s@.subrange(0, i as int);
        let c = s.get_char(i);
        if c == d {
            let tok = s.substring_char(start, i);
            tokens.push(tok.to_owned());
            start = i + 1;
        }
        i += 1;
        proof {
            let stepped = s@.subrange(0, i as int);
            assert(stepped.drop_last() =~= prefix);
            assert(stepped.last() == c);
            let rest = split_char(prefix, d);
            lemma_split_char_nonempty(prefix, d);
            if c == d {
                assert(s@.subrange(start as int, i as int) =~= Seq::<char>::empty());
                assert(tokens@.map_values(|t: String| t@)
                    =~= rest);
                assert(tokens@.map_values(|t: String| t@).push(s@.subrange(start as int, i as int))
                    =~= split_char(stepped, d));
            } else {
                assert(s@.subrange(start as int, i as int)
                    =~= s@.subrange(start as int, i - 1).push(c));
                assert(tokens@.map_values(|t: String| t@).push(s@.subrange(start as int, i as int))
                    =~= split_char(stepped, d));
            }
        }
    }
    let tok = s.substring_char(start, n);
    tokens.push(tok.to_owned());
    proof {
        assert(s@.subrange(0, n as int) =~= s@);
        assert(tokens@.map_values(|t: String| t@)
            =~= split_char(s@, d));
    }
    tokens
}

/// A decimal digit character.
pub open spec fn is_digit(c: char) -> bool {
    48 <= c as int <= 57
}

/// The numeric value of a decimal digit character.
pub open spec fn digit_val(c: char) -> nat {
    (c as int - 48) as nat
}

/// Every character of `s` is a decimal digit.
pub open spec fn all_digits(s: Seq<char>) -> bool {
    forall|i: int| 0 <= i < s.len() ==> is_digit(#[trigger] s[i])
}

/// The number denoted by a sequence of decimal digit characters, most
/// significant first; the empty sequence denotes zero.
pub open spec fn dec_value(s: Seq<char>) -> nat
    decreases s.len(),
{
    if s.len() == 0 {
        0
    } else {
        dec_value(s.drop_last()) * 10 + digit_val(s.last())
    }
}

/// A prefix of a digit sequence never denotes more than the whole sequence.
proof fn lemma_dec_value_prefix_le(s: Seq<char>, i: int)
    requires
        0 <= i <= s.len(),
    ensures
        dec_value(s.subrange(0, i)) <= dec_value(s),
    decreases s.len() - i,
{
    if i == s.len() {
        assert(s.subrange(0, i) =~= s);
    } else {
        assert(s.subrange(0, i + 1).drop_last() =~= s.subrange(0, i));
        lemma_dec_value_prefix_le(s, i + 1);
    }
}

/// Reads a process id written in decimal. Returns the denoted value exactly
/// when the text is nonempty, consists of digits alone, and fits in the type.
pub fn parse_u32_dec(s: &str) -> (r: Option<u32>)
    ensures
        match r {
            Some(v) => s@.len() > 0 && all_digits(s@) && v as nat == dec_value(s@),
            None => s@.len() == 0 || !all_digits(s@) || dec_value(s@) > u32::MAX,
        },
{
    let n = s.unicode_len();
    if n == 0 {
        return None;
    }
    let mut acc: u64 = 0;
    let mut i: usize = 0;
    proof {
        assert(s@.subrange(0, 0) =~= Seq::<char>::empty());
    }
    while i < n
        invariant
            i <= n,
            n == s@.len(),
            all_digits(s@.subrange(0, i as int)),
            acc as nat == dec_value(s@.subrange(0, i as int)),
            acc <= u32::MAX as u64,
        decreases n - i,
    {
        let ghost prefix = s@.subrange(0, i as int);
        let c = s.get_char(i);
        let code = c as u32;
        if code < 48 || code > 57 {
            proof {
                assert(!is_digit(s@[i as int]));
            }
            return None;
        }
        let d = (code - 48) as u64;
        acc = acc * 10 + d;
        proof {
            let stepped = s@.subrange(0, i + 1);
            assert(stepped.drop_last() =~= prefix);
            assert(stepped.last() == s@[i as int]);
            assert(forall|j: int| 0 <= j < stepped.len() ==> is_digit(#[trigger] stepped[j]));
        }
        if acc > u32::MAX as u64 {
            proof {
                lemma_dec_value_prefix_le(s@, i + 1);
            }
            return None;
        }
        i += 1;
    }
    proof {
        assert(s@.subrange(0, n as int) =~= s@);
    }
    Some(acc as u32)
}

/// The decimal digit character for a value below ten.
pub open spec fn digit_char(d: nat) -> char {
    if d == 0 {
        '0'
    } else if d == 1 {
        '1'
    } else if d == 2 {
        '2'
    } else if d == 3 {
        '3'
    } else if d == 4 {
        '4'
    } else if d == 5 {
        '5'
    } else if d == 6 {
        '6'
    } else if d == 7 {
        '7'
    } else if d == 8 {
        '8'
    } else {
        '9'
    }
}

/// The decimal rendering of `n`, most significant digit first, no sign and no
/// leading zero (zero itself is rendered as one digit).
pub open spec fn dec_of(n: nat) -> Seq<char>
    decreases n,
{
    if n < 10 {
        seq![digit_char(n)]
    } else {
        dec_of(n / 10).push(digit_char(n % 10))
    }
}

fn digit_str(d: u32) -> (r: &'static str)
    requires
        d < 10,
    ensures
        r@ == seq![digit_char(d as nat)],
{
    let r: &'static str = if d == 0 {
        "0"
    } else if d == 1 {
        "1"
    } else if d == 2 {
        "2"
    } else if d == 3 {
        "3"
    } else if d == 4 {
        "4"
    } else if d == 5 {
        "5"
    } else if d == 6 {
        "6"
    } else if d == 7 {
        "7"
    } else if d == 8 {
        "8"
    } else {
        "9"
    };
    proof {
        reveal_strlit("0");
        reveal_strlit("1");
        reveal_strlit("2");
        reveal_strlit("3");
        reveal_strlit("4");
        reveal_strlit("5");
        reveal_strlit("6");
        reveal_strlit("7");
        reveal_strlit("8");
        reveal_strlit("9");
        assert(r@ =~= seq![digit_char(d as nat)]);
    }
    r
}

/// Writes a process id in decimal, as `dec_of` describes.
pub fn u32_to_dec(v: u32) -> (r: String)
    ensures
        r@ == dec_of(v as nat),
    decreases v,
{
    if v < 10 {
        let r = digit_str(v).to_owned();
        r
    } else {
        let mut r = u32_to_dec(v / 10);
        r.append(digit_str(v % 10));
        proof {
            assert(r@ =~= dec_of(v as nat));
        }
        r
    }
}

/// The decimal rendering of an id reads back as exactly that id: it is
/// nonempty, all digits, and denotes the value it was written from.
pub proof fn lemma_dec_round_trip(n: nat)
    ensures
        dec_of(n).len() >= 1,
        all_digits(dec_of(n)),
        dec_value(dec_of(n)) == n,
    decreases n,
{
    if n < 10 {
        let s = dec_of(n);
        assert(s == seq![digit_char(n)]);
        assert(s.len() == 1);
        assert(s.drop_last() =~= Seq::<char>::empty());
        assert(dec_value(Seq::<char>::empty()) == 0);
        assert(s.last() == digit_char(n));
        assert(dec_value(s) == dec_value(s.drop_last()) * 10 + digit_val(s.last()));
        assert('0' as int == 48 && '1' as int == 49 && '2' as int == 50 && '3' as int == 51
            && '4' as int == 52 && '5' as int == 53 && '6' as int == 54 && '7' as int == 55
            && '8' as int == 56 && '9' as int == 57);
        assert(digit_val(digit_char(n)) == n);
        assert(dec_value(dec_of(n)) == n);
    } else {
        lemma_dec_round_trip(n / 10);
        vstd::arithmetic::div_mod::lemma_fundamental_div_mod(n as int, 10);
        assert(dec_of(n).drop_last() =~= dec_of(n / 10));
        assert(forall|i: int| 0 <= i < dec_of(n).len() ==> is_digit(#[trigger] dec_of(n)[i]));
    }
}

} // verus!
