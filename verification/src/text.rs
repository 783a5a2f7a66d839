//! Pieces of kernel source text.
use std::collections::hash_map::DefaultHasher;
use std::hash::Hasher;
use vstd::prelude::*;
use vstd::std_specs::hash::DefaultHasherAdditionalSpecFns;
use vstd::utf8::encode_utf8;

verus! {

/// `String::push`: appends one character.
pub assume_specification[ String::push ](s: &mut String, c: char)
    ensures
        final(s)@ == old(s)@.push(c),
;

/// The character of a decimal digit.
pub open spec fn digit(d: nat) -> char {
    if d == 0 {
        '0'
    } else if d == 1 {
        '1'
    } else if d == 2 {
        '2'
    } else if d == 3 {
        '3'
    } else if d == 4 {
        '4'
    } else if d == 5 {
        '5'
    } else if d == 6 {
        '6'
    } else if d == 7 {
        '7'
    } else if d == 8 {
        '8'
    } else {
        '9'
    }
}

/// A number in decimal notation.
pub open spec fn decimal(n: nat) -> Seq<char>
    decreases n,
{
    if n < 10 {
        seq![digit(n)]
    } else {
        decimal(n / 10).push(digit(n % 10))
    }
}

/// The character of a decimal digit.
fn digit_char(d: u128) -> (c: char)
    requires
        d < 10,
    ensures
        c == digit(d as nat),
{
    if d == 0 {
        '0'
    } else if d == 1 {
        '1'
    } else if d == 2 {
        '2'
    } else if d == 3 {
        '3'
    } else if d == 4 {
        '4'
    } else if d == 5 {
        '5'
    } else if d == 6 {
        '6'
    } else if d == 7 {
        '7'
    } else if d == 8 {
        '8'
    } else {
        '9'
    }
}

/// Appends a number in decimal notation.
pub fn push_decimal(s: &mut String, n: u128)
    ensures
        final(s)@ == old(s)@ + decimal(n as nat),
    decreases n,
{
    if n < 10 {
        s.push(digit_char(n));
    } else {
        push_decimal(s, n / 10);
        s.push(digit_char(n % 10));
    }
    proof {
        assert(s@ =~= old(s)@ + decimal(n as nat));
    }
}

/// Different numbers have different decimal notations.
pub proof fn lemma_decimal_injective(a: nat, b: nat)
    requires
        decimal(a) == decimal(b),
    ensures
        a == b,
    decreases a + b,
{
    let s = decimal(a);
    let t = decimal(b);
    assert(s.last() == digit(a % 10));
    assert(t.last() == digit(b % 10));
    assert(a % 10 == b % 10);
    lemma_decimal_len(a);
    lemma_decimal_len(b);
    if a >= 10 && b >= 10 {
        assert(s.drop_last() =~= decimal(a / 10));
        assert(t.drop_last() =~= decimal(b / 10));
        lemma_decimal_injective(a / 10, b / 10);
    }
}

/// A number of one digit, and no other, has a notation of one character.
proof fn lemma_decimal_len(n: nat)
    ensures
        decimal(n).len() >= 1,
        decimal(n).len() == 1 <==> n < 10,
    decreases n,
{
    if n >= 10 {
        lemma_decimal_len(n / 10);
    }
}

/// `s` with every occurrence of `pattern`, from the left and without overlap, replaced by `by`.
pub open spec fn replaced(s: Seq<char>, pattern: Seq<char>, by: Seq<char>) -> Seq<char>
    decreases s.len(),
{
    if s.len() == 0 {
        s
    } else if 0 < pattern.len() <= s.len() && s.take(pattern.len() as int) == pattern {
        by + replaced(s.skip(pattern.len() as int), pattern, by)
    } else {
        seq![s[0]] + replaced(s.skip(1), pattern, by)
    }
}

/// The characters of a text.
fn characters(s: &str) -> (res: Vec<char>)
    ensures
        res@ == s@,
{
    let mut res: Vec<char> = Vec::new();
    for c in it: s.chars()
        invariant
            res@ == it.seq().take(it.index() as int),
            it.seq() == s@,
            it.index() == it.seq().len() ==> res@ == s@,
    {
        res.push(c);
        assert(res@ =~= it.seq().take(it.index() + 1));
        assert(it.seq().take(it.seq().len() as int) =~= it.seq());
    }
    res
}

/// Whether `pattern` occurs at place `at` of `s`.
fn occurs(s: &Vec<char>, at: usize, pattern: &Vec<char>) -> (res: bool)
    requires
        at <= s.len(),
    ensures
        res == (pattern.len() <= s.len() - at && s@.skip(at as int).take(pattern.len() as int)
            == pattern@),
{
    if pattern.len() > s.len() - at {
        return false;
    }
    let mut i: usize = 0;
    while i < pattern.len()
        invariant
            i <= pattern.len(),
            at + pattern.len() <= s.len(),
            forall|k: int| 0 <= k < i ==> s@[at + k] == pattern@[k],
        decreases pattern.len() - i,
    {
        if s[at + i] != pattern[i] {
            assert(s@.skip(at as int).take(pattern.len() as int)[i as int] != pattern@[i as int]);
            return false;
        }
        i = i + 1;
    }
    assert(s@.skip(at as int).take(pattern.len() as int) =~= pattern@);
    true
}

/// Replaces every occurrence of a pattern in a text.
pub fn replace(s: &str, pattern: &str, by: &str) -> (res: String)
    requires
        pattern@.len() > 0,
    ensures
        res@ == replaced(s@, pattern@, by@),
{
    let chars = characters(s);
    let pat = characters(pattern);
    let mut res = String::new();
    let mut at: usize = 0;
    proof {
        assert(chars@.skip(0) =~= chars@);
        assert(res@ + replaced(s@, pattern@, by@) =~= replaced(s@, pattern@, by@));
    }
    while at < chars.len()
        invariant
            at <= chars.len(),
            chars@ == s@,
            pat@ == pattern@,
            pat.len() > 0,
            res@ + replaced(chars@.skip(at as int), pattern@, by@) == replaced(
                s@,
                pattern@,
                by@,
            ),
        decreases chars.len() - at,
    {
        let ghost rest = chars@.skip(at as int);
        let ghost before = res@;
        if occurs(&chars, at, &pat) {
            res.append(by);
            at = at + pat.len();
            proof {
                let more = chars@.skip(at as int);
                assert(rest.skip(pattern@.len() as int) =~= more);
                assert(before + (by@ + replaced(more, pattern@, by@)) =~= (before + by@)
                    + replaced(more, pattern@, by@));
            }
        } else {
            res.push(chars[at]);
            at = at + 1;
            proof {
                let more = chars@.skip(at as int);
                assert(rest.skip(1) =~= more);
                assert(before + (seq![rest[0]] + replaced(more, pattern@, by@)) =~= before.push(
                    rest[0],
                ) + replaced(more, pattern@, by@));
            }
        }
    }
    proof {
        assert(chars@.skip(at as int) =~= Seq::<char>::empty());
        assert(res@ + Seq::<char>::empty() =~= res@);
    }
    res
}

/// The hash of a text: that of its bytes and of the byte that ends a text.
pub open spec fn text_hash(s: Seq<char>) -> u64 {
    DefaultHasher::spec_finish(seq![encode_utf8(s), seq![0xffu8]])
}

/// The hash of a text.
pub fn hash(s: &str) -> (h: u64)
    ensures
        h == text_hash(s@),
{
    let mut hasher = DefaultHasher::new();
    hasher.write(s.as_bytes());
    let end: [u8; 1] = [0xff];
    hasher.write(&end);
    proof {
        assert(end@ =~= seq![0xffu8]);
        assert(hasher@ =~= seq![encode_utf8(s@), seq![0xffu8]]);
    }
    hasher.finish()
}

/// The number that decimal digits write, the first of them the highest.
pub open spec fn written(s: Seq<char>) -> int
    decreases s.len(),
{
    if s.len() == 0 {
        0
    } else {
        10 * written(s.drop_last()) + (s.last() as int - '0' as int)
    }
}

/// A number in decimal notation is written in digits, without a zero in front of others, and reads
/// back as that number.
pub proof fn lemma_decimal_reads(n: nat)
    ensures
        decimal(n).len() >= 1,
        forall|i: int| 0 <= i < decimal(n).len() ==> '0' <= #[trigger] decimal(n)[i] <= '9',
        decimal(n).len() > 1 ==> decimal(n)[0] != '0',
        written(decimal(n)) == n,
    decreases n,
{
    let s = decimal(n);
    let d = digit(n % 10);
    assert(d as int - '0' as int == n % 10);
    if n < 10 {
        assert(s.drop_last() =~= Seq::<char>::empty());
        assert(s.last() == d);
        assert(written(s.drop_last()) == 0);
    } else {
        let r = decimal(n / 10);
        lemma_decimal_reads(n / 10);
        assert(s.drop_last() =~= r);
        assert(s.last() == d);
        assert forall|i: int| 0 <= i < s.len() implies '0' <= #[trigger] s[i] <= '9' by {
            if i < r.len() {
                assert(s[i] == r[i]);
            }
        }
        assert(s[0] == r[0]);
        if r.len() == 1 {
            lemma_decimal_len(n / 10);
            assert(written(r) == n / 10);
            assert(r.drop_last() =~= Seq::<char>::empty());
        }
    }
}

/// Appending a number appends digits that read as it.
pub proof fn lemma_push_decimal_reads(s: &mut String, n: u128)
    requires
        call_ensures(push_decimal, (s, n), ()),
    ensures
        ({
            let t = final(s)@.skip(old(s)@.len() as int);
            &&& final(s)@ == old(s)@ + t
            &&& t.len() >= 1
            &&& forall|i: int| 0 <= i < t.len() ==> '0' <= #[trigger] t[i] <= '9'
            &&& t.len() > 1 ==> t[0] != '0'
            &&& written(t) == n
        }),
{
    lemma_decimal_reads(n as nat);
    assert(final(s)@.skip(old(s)@.len() as int) =~= decimal(n as nat));
}

/// `pattern` occurs in `s` at place `i`.
pub open spec fn occurs_at(s: Seq<char>, pattern: Seq<char>, i: int) -> bool {
    0 <= i && i + pattern.len() <= s.len() && s.subrange(i, i + pattern.len()) == pattern
}

proof fn lemma_replaced_up_to(s: Seq<char>, pattern: Seq<char>, by: Seq<char>, k: int)
    requires
        pattern.len() > 0,
        0 <= k <= s.len(),
        forall|i: int| 0 <= i < k ==> !#[trigger] occurs_at(s, pattern, i),
    ensures
        replaced(s, pattern, by) == s.take(k) + replaced(s.skip(k), pattern, by),
    decreases k,
{
    if k == 0 {
        assert(s.skip(0) =~= s);
        assert(s.take(0) + replaced(s, pattern, by) =~= replaced(s, pattern, by));
    } else {
        let r = s.skip(1);
        assert(!occurs_at(s, pattern, 0));
        if pattern.len() <= s.len() {
            assert(s.subrange(0, pattern.len() as int) =~= s.take(pattern.len() as int));
        }
        assert forall|i: int| 0 <= i < k - 1 implies !#[trigger] occurs_at(r, pattern, i) by {
            assert(!occurs_at(s, pattern, i + 1));
            if i + pattern.len() <= r.len() {
                assert(r.subrange(i, i + pattern.len()) =~= s.subrange(
                    i + 1,
                    i + 1 + pattern.len(),
                ));
            }
        }
        lemma_replaced_up_to(r, pattern, by, k - 1);
        assert(r.skip(k - 1) =~= s.skip(k));
        assert(seq![s[0]] + (r.take(k - 1) + replaced(s.skip(k), pattern, by)) =~= s.take(k)
            + replaced(s.skip(k), pattern, by));
    }
}

/// A text in which a pattern does not occur stays as it is.
pub proof fn lemma_replace_absent(s: &str, pattern: &str, by: &str, res: String)
    requires
        call_ensures(replace, (s, pattern, by), res),
        pattern@.len() > 0,
        forall|i: int| !#[trigger] occurs_at(s@, pattern@, i),
    ensures
        res@ == s@,
{
    lemma_replaced_up_to(s@, pattern@, by@, s@.len() as int);
    assert(s@.take(s@.len() as int) + replaced(s@.skip(s@.len() as int), pattern@, by@) =~= s@);
}

/// Where a pattern first occurs at `k`, the text up to there stays, what replaces the pattern
/// follows, and then what replacing in the rest of the text gives.
pub proof fn lemma_replace_first(
    s: &str,
    pattern: &str,
    by: &str,
    res: String,
    rest: &str,
    next: String,
    k: int,
)
    requires
        call_ensures(replace, (s, pattern, by), res),
        call_ensures(replace, (rest, pattern, by), next),
        pattern@.len() > 0,
        occurs_at(s@, pattern@, k),
        forall|i: int| 0 <= i < k ==> !#[trigger] occurs_at(s@, pattern@, i),
        rest@ == s@.skip(k + pattern@.len()),
    ensures
        res@ == s@.take(k) + by@ + next@,
{
    lemma_replaced_up_to(s@, pattern@, by@, k);
    let t = s@.skip(k);
    assert(t.take(pattern@.len() as int) =~= s@.subrange(k, k + pattern@.len()));
    assert(t.skip(pattern@.len() as int) =~= rest@);
    assert(s@.take(k) + (by@ + next@) =~= s@.take(k) + by@ + next@);
}

/// The hash of a text is what the standard hasher makes of its bytes in UTF-8 and of a byte 255 after
/// them.
pub proof fn lemma_hash_of_bytes(s: &str, h: u64)
    requires
        call_ensures(hash, (s,), h),
    ensures
        h == DefaultHasher::spec_finish(seq![encode_utf8(s@), seq![255u8]]),
{
}

} // verus!
