//! Character-level utilities shared by the lexer, the expression evaluator
//! and the record reader: whitespace classification, decimal conversion,
//! splitting and trimming of character vectors.

use vstd::prelude::*;
use vstd::std_specs::iter::IteratorSpec;

verus! {

broadcast use vstd::string::group_string_axioms;

/// The Unicode `White_Space` code points (the set that
/// `char::is_whitespace` recognizes).
pub open spec fn is_space_char(c: char) -> bool {
    let u = c as u32;
    ||| u == 0x20
    ||| (0x09 <= u && u <= 0x0d)
    ||| u == 0x85
    ||| u == 0xa0
    ||| u == 0x1680
    ||| (0x2000 <= u && u <= 0x200a)
    ||| u == 0x2028
    ||| u == 0x2029
    ||| u == 0x202f
    ||| u == 0x205f
    ||| u == 0x3000
}

/// Whitespace test over the `White_Space` table.
pub fn is_space(c: char) -> (r: bool)
    ensures
        r == is_space_char(c),
{
    let u = c as u32;
    u == 0x20 || (0x09 <= u && u <= 0x0d) || u == 0x85 || u == 0xa0 || u == 0x1680 || (0x2000
        <= u && u <= 0x200a) || u == 0x2028 || u == 0x2029 || u == 0x202f || u == 0x205f || u
        == 0x3000
}

/// Decimal digit characters `'0'..='9'`.
pub open spec fn is_dec_digit(c: char) -> bool {
    0x30 <= c as u32 && c as u32 <= 0x39
}

/// Numeric value of a decimal digit character.
pub open spec fn digit_val(c: char) -> nat
    recommends
        is_dec_digit(c),
{
    (c as u32 - 0x30) as nat
}

/// The digit character for a value below ten.
pub open spec fn dec_digit(d: nat) -> char
    recommends
        d < 10,
{
    if d == 0 {
        '0'
    } else if d == 1 {
        '1'
    } else if d == 2 {
        '2'
    } else if d == 3 {
        '3'
    } else if d == 4 {
        '4'
    } else if d == 5 {
        '5'
    } else if d == 6 {
        '6'
    } else if d == 7 {
        '7'
    } else if d == 8 {
        '8'
    } else {
        '9'
    }
}

/// Decimal rendering of a natural number, most significant digit first,
/// without leading zeros (zero itself renders as `"0"`).
pub open spec fn dec_of(n: nat) -> Seq<char>
    decreases n,
{
    if n < 10 {
        seq![dec_digit(n)]
    } else {
        dec_of(n / 10) + seq![dec_digit(n % 10)]
    }
}

/// All characters of `s` are decimal digits.
pub open spec fn all_dec_digits(s: Seq<char>) -> bool {
    forall|i: int| 0 <= i < s.len() ==> is_dec_digit(#[trigger] s[i])
}

/// Numeric value of a digit sequence, most significant digit first.
pub open spec fn dec_val(s: Seq<char>) -> nat
    decreases s.len(),
{
    if s.len() == 0 {
        0
    } else {
        dec_val(s.drop_last()) * 10 + digit_val(s.last())
    }
}

/// A digit sequence denotes a value of `u64` range.
pub open spec fn is_u64_digits(s: Seq<char>) -> bool {
    s.len() > 0 && all_dec_digits(s) && dec_val(s) <= u64::MAX
}

fn dec_digit_exec(d: u64) -> (c: char)
    requires
        d < 10,
    ensures
        c == dec_digit(d as nat),
{
    if d == 0 {
        '0'
    } else if d == 1 {
        '1'
    } else if d == 2 {
        '2'
    } else if d == 3 {
        '3'
    } else if d == 4 {
        '4'
    } else if d == 5 {
        '5'
    } else if d == 6 {
        '6'
    } else if d == 7 {
        '7'
    } else if d == 8 {
        '8'
    } else {
        '9'
    }
}

/// Appends the decimal rendering of `n` to `out`.
pub fn push_dec(n: u64, out: &mut Vec<char>)
    ensures
        final(out)@ == old(out)@ + dec_of(n as nat),
    decreases n,
{
    if n < 10 {
        out.push(dec_digit_exec(n));
    } else {
        push_dec(n / 10, out);
        out.push(dec_digit_exec(n % 10));
        proof {
            assert(out@ =~= old(out)@ + dec_of(n as nat));
        }
    }
}

/// The value of a prefix never exceeds the value of the whole digit string.
proof fn lemma_dec_val_take_le(s: Seq<char>, i: int)
    requires
        0 <= i <= s.len(),
    ensures
        dec_val(s.take(i)) <= dec_val(s),
    decreases s.len() - i,
{
    if i < s.len() {
        assert(s.take(i + 1).drop_last() =~= s.take(i));
        assert(dec_val(s.take(i + 1)) == dec_val(s.take(i)) * 10 + digit_val(s.take(i + 1).last()));
        lemma_dec_val_take_le(s, i + 1);
    } else {
        assert(s.take(i) =~= s);
    }
}

/// Parses a non-empty, all-digit character vector as an unsigned integer;
/// returns `None` on any other input or when the value does not fit.
pub fn parse_u64(v: &Vec<char>) -> (r: Option<u64>)
    ensures
        r is Some <==> is_u64_digits(v@),
        r is Some ==> r->0 == dec_val(v@),
{
    let n = v.len();
    if n == 0 {
        return None;
    }
    let mut acc: u64 = 0;
    let mut i: usize = 0;
    while i < n
        invariant
            0 <= i <= n,
            n == v@.len(),
            all_dec_digits(v@.take(i as int)),
            acc == dec_val(v@.take(i as int)),
        decreases n - i,
    {
        let c = v[i];
        let u = c as u32;
        if !(0x30 <= u && u <= 0x39) {
            assert(!is_dec_digit(v@[i as int]));
            return None;
        }
        let d: u64 = (u - 0x30) as u64;
        proof {
            assert(v@.take(i as int + 1).drop_last() =~= v@.take(i as int));
            assert(v@.take(i as int + 1).last() == v@[i as int]);
            assert(dec_val(v@.take(i as int + 1)) == acc * 10 + d);
        }
        if acc > (u64::MAX - d) / 10 {
            proof {
                assert(acc * 10 + d > u64::MAX) by (nonlinear_arith)
                    requires
                        acc > (u64::MAX - d) / 10,
                        d <= 9,
                        acc <= u64::MAX,
                ;
                lemma_dec_val_take_le(v@, i as int + 1);
            }
            return None;
        }
        proof {
            assert(acc * 10 + d <= u64::MAX) by (nonlinear_arith)
                requires
                    acc <= (u64::MAX - d) / 10,
                    d <= 9,
            ;
        }
        acc = acc * 10 + d;
        i = i + 1;
    }
    proof {
        assert(v@.take(n as int) =~= v@);
    }
    Some(acc)
}

/// Element-wise equality of two character vectors.
pub fn char_vecs_eq(a: &Vec<char>, b: &Vec<char>) -> (r: bool)
    ensures
        r == (a@ == b@),
{
    if a.len() != b.len() {
        return false;
    }
    let mut i: usize = 0;
    while i < a.len()
        invariant
            0 <= i <= a@.len(),
            a@.len() == b@.len(),
            forall|j: int| 0 <= j < i ==> a@[j] == b@[j],
        decreases a@.len() - i,
    {
        if a[i] != b[i] {
            return false;
        }
        i = i + 1;
    }
    proof {
        assert(a@ =~= b@);
    }
    true
}

/// Collects the characters of a string slice into a vector.
pub fn chars_of(s: &str) -> (r: Vec<char>)
    ensures
        r@ == s@,
{
    let mut it = s.chars();
    let mut v: Vec<char> = Vec::new();
    proof {
        assert(v@ + it.remaining() =~= s@);
    }
    loop
        invariant
            it.obeys_prophetic_iter_laws(),
            it.decrease() is Some,
            v@ + it.remaining() == s@,
        ensures
            v@ == s@,
        decreases it.decrease()->0,
    {
        match it.next() {
            Some(c) => {
                v.push(c);
                proof {
                    assert(v@ + it.remaining() =~= s@);
                }
            },
            None => {
                proof {
                    assert(v@ =~= s@);
                }
                break ;
            },
        }
    }
    v
}

/// Fields of `s` between occurrences of `sep`, in order. As with
/// `str::split`, an empty input yields a single empty field, and a separator
/// at either end yields an empty field there.
pub open spec fn split_seq(s: Seq<char>, sep: char) -> Seq<Seq<char>>
    decreases s.len(),
{
    if s.len() == 0 {
        seq![Seq::<char>::empty()]
    } else if s[0] == sep {
        seq![Seq::<char>::empty()] + split_seq(s.drop_first(), sep)
    } else {
        let rest = split_seq(s.drop_first(), sep);
        rest.update(0, seq![s[0]] + rest[0])
    }
}

/// Splitting always yields at least one field.
broadcast proof fn lemma_split_seq_len(s: Seq<char>, sep: char)
    ensures
        #[trigger] split_seq(s, sep).len() >= 1,
    decreases s.len(),
{
    if s.len() > 0 {
        lemma_split_seq_len(s.drop_first(), sep);
    }
}

/// The character sequences of a sequence of character vectors.
pub open spec fn char_vecs_view(vs: Seq<Vec<char>>) -> Seq<Seq<char>> {
    vs.map_values(|v: Vec<char>| v@)
}

/// The character sequences of a sequence of strings.
pub open spec fn strings_view(ss: Seq<String>) -> Seq<Seq<char>> {
    ss.map_values(|s: String| s@)
}

/// The character sequences of a sequence of string slices.
pub open spec fn strs_view(ss: Seq<&str>) -> Seq<Seq<char>> {
    ss.map_values(|s: &str| s@)
}

/// `ss` with `p` prefixed onto its first field.
pub open spec fn prepend_first(p: Seq<char>, ss: Seq<Seq<char>>) -> Seq<Seq<char>>
    recommends
        ss.len() >= 1,
{
    ss.update(0, p + ss[0])
}

/// Splits a character vector on a separator character.
pub fn split_chars(v: &Vec<char>, sep: char) -> (r: Vec<Vec<char>>)
    ensures
        char_vecs_view(r@) == split_seq(v@, sep),
{
    broadcast use lemma_split_seq_len;

    let mut out: Vec<Vec<char>> = Vec::new();
    let mut cur: Vec<char> = Vec::new();
    let mut i: usize = 0;
    proof {
        assert(v@.skip(0) =~= v@);
        assert(prepend_first(cur@, split_seq(v@, sep)) =~~= split_seq(v@, sep));
        assert(char_vecs_view(out@) + prepend_first(cur@, split_seq(v@.skip(0), sep))
            =~~= split_seq(v@, sep));
    }
    while i < v.len()
        invariant
            0 <= i <= v@.len(),
            split_seq(v@, sep) == char_vecs_view(out@) + prepend_first(
                cur@,
                split_seq(v@.skip(i as int), sep),
            ),
        decreases v@.len() - i,
    {
        let ghost su = v@.skip(i as int);
        proof {
            assert(su.len() > 0);
            assert(su[0] == v@[i as int]);
            assert(su.drop_first() =~= v@.skip(i as int + 1));
        }
        let c = v[i];
        if c == sep {
            let ghost old_out = char_vecs_view(out@);
            let ghost old_cur = cur@;
            out.push(cur);
            cur = Vec::new();
            proof {
                lemma_split_seq_len(su.drop_first(), sep);
                lemma_split_seq_len(v@.skip(i as int + 1), sep);
                assert(char_vecs_view(out@) =~~= old_out + seq![old_cur]);
                assert(split_seq(su, sep) == seq![Seq::<char>::empty()] + split_seq(
                    su.drop_first(),
                    sep,
                ));
                assert(prepend_first(old_cur, split_seq(su, sep)) =~~= seq![old_cur] + split_seq(
                    v@.skip(i as int + 1),
                    sep,
                ));
                assert(char_vecs_view(out@) + prepend_first(cur@, split_seq(v@.skip(i as int + 1), sep))
                    =~~= old_out + prepend_first(old_cur, split_seq(su, sep)));
            }
        } else {
            let ghost old_cur = cur@;
            cur.push(c);
            proof {
                lemma_split_seq_len(su.drop_first(), sep);
                lemma_split_seq_len(v@.skip(i as int + 1), sep);
                assert(split_seq(su, sep) == prepend_first(seq![su[0]], split_seq(
                    su.drop_first(),
                    sep,
                )));
                assert(cur@ =~= old_cur + seq![su[0]]);
                assert(prepend_first(old_cur, split_seq(su, sep)) =~~= prepend_first(
                    cur@,
                    split_seq(v@.skip(i as int + 1), sep),
                ));
            }
        }
        i = i + 1;
    }
    proof {
        assert(v@.skip(v@.len() as int) =~= Seq::<char>::empty());
        assert(prepend_first(cur@, split_seq(Seq::<char>::empty(), sep)) =~~= seq![cur@]);
    }
    let ghost old_out = char_vecs_view(out@);
    let ghost last = cur@;
    out.push(cur);
    proof {
        assert(char_vecs_view(out@) =~~= old_out + seq![last]);
    }
    out
}

/// A sequence without the separator splits into itself alone.
proof fn lemma_split_no_sep(s: Seq<char>, sep: char)
    requires
        forall|i: int| 0 <= i < s.len() ==> s[i] != sep,
    ensures
        split_seq(s, sep) == seq![s],
    decreases s.len(),
{
    if s.len() == 0 {
        assert(split_seq(s, sep) =~~= seq![s]);
    } else {
        lemma_split_no_sep(s.drop_first(), sep);
        assert(split_seq(s, sep) =~= seq![s]) by {
            assert(seq![s.drop_first()].update(0, seq![s[0]] + s.drop_first()) =~~= seq![
                seq![s[0]] + s.drop_first(),
            ]);
            assert(seq![s[0]] + s.drop_first() =~= s);
        }
    }
}

/// A single separator between two separator-free parts yields exactly
/// those two fields.
pub(crate) proof fn lemma_split_single_sep(a: Seq<char>, sep: char, b: Seq<char>)
    requires
        forall|i: int| 0 <= i < a.len() ==> a[i] != sep,
        forall|i: int| 0 <= i < b.len() ==> b[i] != sep,
    ensures
        split_seq(a + seq![sep] + b, sep) == seq![a, b],
    decreases a.len(),
{
    let s = a + seq![sep] + b;
    if a.len() == 0 {
        assert(s[0] == sep);
        assert(s.drop_first() =~= b);
        lemma_split_no_sep(b, sep);
        assert(split_seq(s, sep) =~= seq![a, b]) by {
            assert(a =~= Seq::<char>::empty());
        }
    } else {
        assert(s[0] == a[0]);
        assert(s[0] != sep);
        assert(s.drop_first() =~= a.drop_first() + seq![sep] + b);
        lemma_split_single_sep(a.drop_first(), sep, b);
        assert(split_seq(s, sep) =~= seq![a, b]) by {
            assert(split_seq(s.drop_first(), sep) == seq![a.drop_first(), b]);
            assert(seq![a.drop_first(), b].update(0, seq![s[0]] + a.drop_first()) =~~= seq![
                seq![s[0]] + a.drop_first(),
                b,
            ]);
            assert(seq![s[0]] + a.drop_first() =~= a);
        }
    }
}

/// The decimal rendering of a value denotes that value: its characters
/// are digits and its numeric reading gives the value back.
pub(crate) proof fn lemma_dec_of_round_trip(k: nat)
    ensures
        dec_of(k).len() > 0,
        all_dec_digits(dec_of(k)),
        dec_val(dec_of(k)) == k,
    decreases k,
{
    if k < 10 {
        assert(dec_val(dec_of(k)) == k) by {
            assert(dec_of(k) == seq![dec_digit(k)]);
            assert(seq![dec_digit(k)].drop_last() =~= Seq::<char>::empty());
            assert(dec_val(Seq::<char>::empty()) == 0);
            assert(digit_val(dec_digit(k)) == k);
        }
    } else {
        lemma_dec_of_round_trip(k / 10);
        let w = dec_of(k / 10) + seq![dec_digit(k % 10)];
        assert(dec_of(k) == w);
        assert(w.drop_last() =~= dec_of(k / 10));
        assert(w.last() == dec_digit(k % 10));
        assert(digit_val(dec_digit(k % 10)) == k % 10);
        assert(dec_val(w) == (k / 10) * 10 + k % 10);
        assert((k / 10) * 10 + k % 10 == k) by (nonlinear_arith);
        assert(all_dec_digits(w)) by {
            assert(forall|i: int|
                0 <= i < w.len() - 1 ==> w[i] == #[trigger] dec_of(k / 10)[i]);
        }
    }
}

/// `s` with leading whitespace removed.
pub open spec fn trim_front(s: Seq<char>) -> Seq<char>
    decreases s.len(),
{
    if s.len() > 0 && is_space_char(s[0]) {
        trim_front(s.drop_first())
    } else {
        s
    }
}

/// `s` with trailing whitespace removed.
pub open spec fn trim_back(s: Seq<char>) -> Seq<char>
    decreases s.len(),
{
    if s.len() > 0 && is_space_char(s.last()) {
        trim_back(s.drop_last())
    } else {
        s
    }
}

/// `s` with whitespace removed from both ends.
pub open spec fn trim_seq(s: Seq<char>) -> Seq<char> {
    trim_back(trim_front(s))
}

/// Removes whitespace from both ends of a character vector.
pub fn trim_chars(v: &Vec<char>) -> (r: Vec<char>)
    ensures
        r@ == trim_seq(v@),
{
    let n = v.len();
    let mut lo: usize = 0;
    proof {
        assert(v@.skip(0) =~= v@);
    }
    while lo < n && is_space(v[lo])
        invariant
            0 <= lo <= n,
            n == v@.len(),
            trim_front(v@) == trim_front(v@.skip(lo as int)),
        decreases n - lo,
    {
        proof {
            assert(v@.skip(lo as int).drop_first() =~= v@.skip(lo as int + 1));
        }
        lo = lo + 1;
    }
    proof {
        if lo == n {
            assert(v@.skip(lo as int) =~= Seq::<char>::empty());
        }
        assert(trim_front(v@) == v@.skip(lo as int));
        assert(v@.subrange(lo as int, n as int) =~= v@.skip(lo as int));
    }
    let mut hi: usize = n;
    while hi > lo && is_space(v[hi - 1])
        invariant
            lo <= hi <= n,
            n == v@.len(),
            trim_front(v@) == v@.skip(lo as int),
            trim_back(v@.skip(lo as int)) == trim_back(v@.subrange(lo as int, hi as int)),
        decreases hi,
    {
        proof {
            let sub = v@.subrange(lo as int, hi as int);
            assert(sub.last() == v@[hi - 1]);
            assert(sub.drop_last() =~= v@.subrange(lo as int, hi as int - 1));
        }
        hi = hi - 1;
    }
    proof {
        let sub = v@.subrange(lo as int, hi as int);
        if hi > lo {
            assert(sub.last() == v@[hi - 1]);
        }
        assert(trim_back(sub) == sub);
    }
    let mut out: Vec<char> = Vec::new();
    let mut i = lo;
    proof {
        assert(out@ =~= v@.subrange(lo as int, lo as int));
    }
    while i < hi
        invariant
            lo <= i <= hi <= n,
            n == v@.len(),
            out@ == v@.subrange(lo as int, i as int),
        decreases hi - i,
    {
        out.push(v[i]);
        proof {
            assert(out@ =~= v@.subrange(lo as int, i as int + 1));
        }
        i = i + 1;
    }
    out
}

/// `p` is a prefix of `s`.
pub open spec fn starts_with_seq(s: Seq<char>, p: Seq<char>) -> bool {
    s.len() >= p.len() && s.take(p.len() as int) == p
}

/// Prefix test for character vectors.
pub fn starts_with_chars(v: &Vec<char>, p: &Vec<char>) -> (r: bool)
    ensures
        r == starts_with_seq(v@, p@),
{
    if v.len() < p.len() {
        return false;
    }
    let mut i: usize = 0;
    while i < p.len()
        invariant
            0 <= i <= p@.len() <= v@.len(),
            forall|j: int| 0 <= j < i ==> v@[j] == p@[j],
        decreases p@.len() - i,
    {
        if v[i] != p[i] {
            assert(v@.take(p@.len() as int)[i as int] != p@[i as int]);
            return false;
        }
        i = i + 1;
    }
    proof {
        assert(v@.take(p@.len() as int) =~= p@);
    }
    true
}

/// The decimal rendering of an unsigned integer as a string.
pub fn u64_string(n: u64) -> (r: String)
    ensures
        r@ == dec_of(n as nat),
{
    let mut v: Vec<char> = Vec::new();
    push_dec(n, &mut v);
    proof {
        assert(v@ =~= dec_of(n as nat));
    }
    chars_to_string(&v)
}

/// Converts a vector of characters to a string.
///
/// Relies on `String`'s `FromIterator<char>` implementation: collecting the
/// characters of a vector yields a string whose character sequence is exactly
/// the vector's contents.
#[verifier::external_body]
pub fn chars_to_string(v: &Vec<char>) -> (r: String)
    ensures
        r@ == v@,
{
    v.iter().collect()
}

} // verus!
