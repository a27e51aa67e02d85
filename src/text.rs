//! Text helpers: digits in base 10 and 16, decimal parsing, splitting into
//! fixed-size pieces, and the clean-up applied to user-typed patterns.

use vstd::prelude::*;

verus! {

/// The digit character for `d < 16`, lower case.
pub open spec fn digit_char(d: nat) -> char {
    seq!['0', '1', '2', '3', '4', '5', '6', '7', '8', '9', 'a', 'b', 'c', 'd', 'e', 'f'][d as int]
}

/// `n` in lower-case hexadecimal with no leading zeros (`"0"` for zero).
pub open spec fn hex_of(n: nat) -> Seq<char>
    decreases n,
{
    if n < 16 {
        seq![digit_char(n)]
    } else {
        hex_of(n / 16).push(digit_char(n % 16))
    }
}

/// `n` in decimal with no leading zeros (`"0"` for zero).
pub open spec fn decimal_of(n: nat) -> Seq<char>
    decreases n,
{
    if n < 10 {
        seq![digit_char(n)]
    } else {
        decimal_of(n / 10).push(digit_char(n % 10))
    }
}

/// The one-character text of digit `d`.
fn digit_text(d: u64) -> (r: &'static str)
    requires
        d < 16,
    ensures
        r@ == seq![digit_char(d as nat)],
{
    let table = "0123456789abcdef";
    proof {
        reveal_strlit("0123456789abcdef");
    }
    let r = table.substring_char(d as usize, d as usize + 1);
    assert(r@ =~= seq![digit_char(d as nat)]);
    r
}

/// `n` in lower-case hexadecimal, as `{:x}` formats it.
pub fn to_hex(n: u64) -> (r: String)
    ensures
        r@ == hex_of(n as nat),
    decreases n,
{
    if n < 16 {
        String::from_str(digit_text(n))
    } else {
        let mut s = to_hex(n / 16);
        s.append(digit_text(n % 16));
        s
    }
}

/// `n` in decimal, as `{}` formats it.
pub fn to_decimal(n: u64) -> (r: String)
    ensures
        r@ == decimal_of(n as nat),
    decreases n,
{
    if n < 10 {
        String::from_str(digit_text(n))
    } else {
        let mut s = to_decimal(n / 10);
        s.append(digit_text(n % 10));
        s
    }
}

/// Whether every character of `s` is an ASCII digit.
pub open spec fn all_digits(s: Seq<char>) -> bool {
    forall|i: int| 0 <= i < s.len() ==> '0' <= #[trigger] s[i] <= '9'
}

/// The value of a run of decimal digits.
pub open spec fn digits_value(s: Seq<char>) -> int
    decreases s.len(),
{
    if s.len() == 0 {
        0
    } else {
        digits_value(s.drop_last()) * 10 + (s.last() as int - '0' as int)
    }
}

/// What `str::parse::<u64>` gives: an optional `+`, then one or more
/// decimal digits whose value fits in 64 bits.
pub open spec fn parse_u64_of(s: Seq<char>) -> Option<u64> {
    let d = if s.len() > 0 && s[0] == '+' {
        s.skip(1)
    } else {
        s
    };
    if d.len() > 0 && all_digits(d) && digits_value(d) <= u64::MAX {
        Some(digits_value(d) as u64)
    } else {
        None
    }
}

proof fn lemma_digits_value_nonneg(s: Seq<char>)
    requires
        all_digits(s),
    ensures
        digits_value(s) >= 0,
    decreases s.len(),
{
    if s.len() > 0 {
        assert(all_digits(s.drop_last()));
        lemma_digits_value_nonneg(s.drop_last());
    }
}

/// Reads a decimal `u64` the way `str::parse::<u64>` does.
pub fn parse_u64(s: &str) -> (r: Option<u64>)
    ensures
        r == parse_u64_of(s@),
{
    let len = s.unicode_len();
    let mut i: usize = 0;
    if len > 0 && s.get_char(0) == '+' {
        i = 1;
    }
    let start = i;
    let ghost d = s@.skip(start as int);
    assert(s@.skip(0) =~= s@);
    assert(d == if s@.len() > 0 && s@[0] == '+' {
        s@.skip(1)
    } else {
        s@
    });
    if start == len {
        return None;
    }
    let mut v: u64 = 0;
    let mut over = false;
    while i < len
        invariant
            start <= i <= len,
            len == s@.len(),
            d == s@.skip(start as int),
            d == if s@.len() > 0 && s@[0] == '+' {
                s@.skip(1)
            } else {
                s@
            },
            all_digits(s@.subrange(start as int, i as int)),
            !over ==> v == digits_value(s@.subrange(start as int, i as int)),
            over ==> digits_value(s@.subrange(start as int, i as int)) > u64::MAX,
        decreases len - i,
    {
        let c = s.get_char(i);
        let ghost prev = s@.subrange(start as int, i as int);
        let ghost next = s@.subrange(start as int, i + 1);
        assert(next.drop_last() =~= prev);
        if c < '0' || c > '9' {
            assert(d[i - start] == c);
            return None;
        }
        assert(all_digits(next)) by {
            assert forall|j: int| 0 <= j < next.len() implies '0' <= #[trigger] next[j] <= '9' by {
                if j < prev.len() {
                    assert(next[j] == prev[j]);
                }
            }
        }
        proof {
            lemma_digits_value_nonneg(prev);
        }
        let digit = (c as u32 - '0' as u32) as u64;
        if !over {
            match v.checked_mul(10) {
                Some(t) => match t.checked_add(digit) {
                    Some(w) => {
                        v = w;
                    },
                    None => {
                        over = true;
                    },
                },
                None => {
                    over = true;
                },
            }
        }
        i = i + 1;
    }
    assert(s@.subrange(start as int, len as int) =~= d);
    if over {
        None
    } else {
        Some(v)
    }
}

/// `s` cut into pieces of `n` characters, the last one holding what is
/// left (one piece when `s` has at most `n` characters).
pub open spec fn chunks(s: Seq<char>, n: nat) -> Seq<Seq<char>>
    decreases s.len(),
{
    if s.len() <= n || n == 0 {
        seq![s]
    } else {
        seq![s.take(n as int)] + chunks(s.skip(n as int), n)
    }
}

/// The pieces of `ss` joined back together.
pub open spec fn joined(ss: Seq<Seq<char>>) -> Seq<char>
    decreases ss.len(),
{
    if ss.len() == 0 {
        Seq::empty()
    } else {
        ss[0] + joined(ss.skip(1))
    }
}

/// The views of a sequence of strings.
pub open spec fn texts(v: Seq<String>) -> Seq<Seq<char>> {
    v.map_values(|x: String| x@)
}

/// Cutting into pieces loses nothing, and every piece but the last has
/// exactly `n` characters; the last has between 1 and `n` (0 only for an
/// empty `s`).
pub proof fn lemma_chunks(s: Seq<char>, n: nat)
    requires
        n > 0,
    ensures
        joined(chunks(s, n)) == s,
        chunks(s, n).len() >= 1,
        forall|k: int| 0 <= k < chunks(s, n).len() - 1 ==> #[trigger] chunks(s, n)[k].len() == n,
        chunks(s, n).last().len() <= n,
        s.len() > 0 ==> chunks(s, n).last().len() > 0,
        s.len() <= n ==> chunks(s, n) == seq![s],
    decreases s.len(),
{
    let c = chunks(s, n);
    if s.len() <= n {
        assert(seq![s].skip(1) =~= Seq::<Seq<char>>::empty());
        assert(joined(seq![s]) == s + joined(Seq::<Seq<char>>::empty()));
        assert(s + Seq::<char>::empty() =~= s);
    } else {
        let rest = chunks(s.skip(n as int), n);
        lemma_chunks(s.skip(n as int), n);
        assert(c.skip(1) =~= rest);
        assert(c[0] == s.take(n as int));
        assert(s.take(n as int) + s.skip(n as int) =~= s);
        assert forall|k: int| 0 <= k < c.len() - 1 implies #[trigger] c[k].len() == n by {
            if k > 0 {
                assert(c[k] == rest[k - 1]);
            }
        }
    }
}

/// Cuts `s` into pieces of at most `n` characters: every piece but the
/// last has exactly `n`, and joined again they give `s`.
pub fn split_chunks(s: &str, n: usize) -> (r: Vec<String>)
    requires
        n > 0,
    ensures
        texts(r@) == chunks(s@, n as nat),
        joined(texts(r@)) == s@,
        r@.len() >= 1,
        forall|k: int| 0 <= k < r@.len() - 1 ==> (#[trigger] r@[k])@.len() == n,
        r@[r@.len() - 1]@.len() <= n,
        s@.len() <= n ==> r@.len() == 1 && r@[0]@ == s@,
{
    let len = s.unicode_len();
    let mut out: Vec<String> = Vec::new();
    let mut start: usize = 0;
    assert(s@.skip(0) =~= s@);
    assert(texts(out@) + chunks(s@.skip(0), n as nat) =~= chunks(s@, n as nat));
    while len - start > n
        invariant
            start <= len,
            len == s@.len(),
            n > 0,
            texts(out@) + chunks(s@.skip(start as int), n as nat) == chunks(s@, n as nat),
        decreases len - start,
    {
        let piece = String::from_str(s.substring_char(start, start + n));
        let ghost t = s@.skip(start as int);
        assert(t.take(n as int) =~= piece@);
        assert(t.skip(n as int) =~= s@.skip(start + n));
        assert(chunks(t, n as nat) == seq![piece@] + chunks(s@.skip(start + n), n as nat));
        assert(texts(out@.push(piece)) =~= texts(out@).push(piece@));
        assert(texts(out@).push(piece@) + chunks(s@.skip(start + n), n as nat) =~= texts(out@) + (
        seq![piece@] + chunks(s@.skip(start + n), n as nat)));
        out.push(piece);
        start = start + n;
    }
    let piece = String::from_str(s.substring_char(start, len));
    let ghost t = s@.skip(start as int);
    assert(t =~= piece@);
    assert(texts(out@.push(piece)) =~= texts(out@).push(piece@));
    assert(texts(out@) + seq![piece@] =~= texts(out@).push(piece@));
    out.push(piece);
    proof {
        lemma_chunks(s@, n as nat);
        assert(texts(out@) == chunks(s@, n as nat));
        assert forall|k: int| 0 <= k < out@.len() - 1 implies (#[trigger] out@[k])@.len() == n by {
            assert(texts(out@)[k] == out@[k]@);
            assert(chunks(s@, n as nat)[k].len() == n);
        }
        assert(texts(out@)[out@.len() - 1] == out@[out@.len() - 1]@);
        if s@.len() <= n {
            assert(s@.skip(0) =~= s@);
        }
    }
    out
}

/// Each `'''` of `s`, taken from the left without overlap, replaced by `"`
/// (as `str::replace` does).
pub open spec fn replace_triple_quotes(s: Seq<char>) -> Seq<char>
    decreases s.len(),
{
    if s.len() == 0 {
        Seq::empty()
    } else if s.len() >= 3 && s[0] == '\'' && s[1] == '\'' && s[2] == '\'' {
        seq!['"'] + replace_triple_quotes(s.skip(3))
    } else {
        seq![s[0]] + replace_triple_quotes(s.skip(1))
    }
}

/// `s` without its `~` characters.
pub open spec fn remove_tildes(s: Seq<char>) -> Seq<char>
    decreases s.len(),
{
    if s.len() == 0 {
        Seq::empty()
    } else if s[0] == '~' {
        remove_tildes(s.skip(1))
    } else {
        seq![s[0]] + remove_tildes(s.skip(1))
    }
}

/// A user-typed pattern made ready for storage: `'''` stands for `"`
/// (for users who cannot type a double quote), and the command prefix `~`
/// is dropped.
pub open spec fn sanitized(s: Seq<char>) -> Seq<char> {
    remove_tildes(replace_triple_quotes(s))
}

/// Replaces each `'''` of `s` by `"`.
pub fn replace_quotes(s: &str) -> (r: String)
    ensures
        r@ == replace_triple_quotes(s@),
{
    let len = s.unicode_len();
    let mut out = String::new();
    let mut i: usize = 0;
    assert(s@.skip(0) =~= s@);
    assert(out@ + replace_triple_quotes(s@.skip(0)) =~= replace_triple_quotes(s@));
    while i < len
        invariant
            i <= len,
            len == s@.len(),
            out@ + replace_triple_quotes(s@.skip(i as int)) == replace_triple_quotes(s@),
        decreases len - i,
    {
        let ghost t = s@.skip(i as int);
        let ghost before = out@;
        if len - i >= 3 && s.get_char(i) == '\'' && s.get_char(i + 1) == '\'' && s.get_char(i + 2)
            == '\'' {
            let quote = "\"";
            proof {
                reveal_strlit("\"");
            }
            assert(t.skip(3) =~= s@.skip(i + 3));
            out.append(quote);
            assert(before + seq!['"'] + replace_triple_quotes(t.skip(3)) =~= before + (seq!['"']
                + replace_triple_quotes(t.skip(3))));
            i = i + 3;
        } else {
            let one = s.substring_char(i, i + 1);
            assert(one@ =~= seq![t[0]]);
            assert(t.skip(1) =~= s@.skip(i + 1));
            out.append(one);
            assert(before + seq![t[0]] + replace_triple_quotes(t.skip(1)) =~= before + (seq![t[0]]
                + replace_triple_quotes(t.skip(1))));
            i = i + 1;
        }
    }
    assert(s@.skip(len as int) =~= Seq::<char>::empty());
    assert(out@ + Seq::<char>::empty() =~= out@);
    out
}

/// Drops every `~` of `s`.
pub fn drop_tildes(s: &str) -> (r: String)
    ensures
        r@ == remove_tildes(s@),
{
    let len = s.unicode_len();
    let mut out = String::new();
    let mut i: usize = 0;
    assert(s@.skip(0) =~= s@);
    assert(out@ + remove_tildes(s@.skip(0)) =~= remove_tildes(s@));
    while i < len
        invariant
            i <= len,
            len == s@.len(),
            out@ + remove_tildes(s@.skip(i as int)) == remove_tildes(s@),
        decreases len - i,
    {
        let ghost t = s@.skip(i as int);
        let ghost before = out@;
        assert(t.skip(1) =~= s@.skip(i + 1));
        if s.get_char(i) != '~' {
            let one = s.substring_char(i, i + 1);
            assert(one@ =~= seq![t[0]]);
            out.append(one);
            assert(before + seq![t[0]] + remove_tildes(t.skip(1)) =~= before + (seq![t[0]]
                + remove_tildes(t.skip(1))));
        }
        i = i + 1;
    }
    assert(s@.skip(len as int) =~= Seq::<char>::empty());
    assert(out@ + Seq::<char>::empty() =~= out@);
    out
}

/// Makes a user-typed pattern ready for storage.
pub fn sanitize(s: &str) -> (r: String)
    ensures
        r@ == sanitized(s@),
{
    let q = replace_quotes(s);
    drop_tildes(q.as_str())
}

} // verus!
