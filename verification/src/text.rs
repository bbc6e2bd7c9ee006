//! Text helpers shared by the parsers: searching for a pattern, splitting at
//! its first occurrence, and writing numbers in decimal.

use vstd::prelude::*;
use vstd::string::*;

verus! {

/// `pat` occurs in `s` starting at index `i`.
pub open spec fn occurs_at(s: Seq<char>, pat: Seq<char>, i: int) -> bool {
    &&& 0 <= i
    &&& i + pat.len() <= s.len()
    &&& s.subrange(i, i + pat.len()) == pat
}

/// `i` is the leftmost index at which `pat` occurs in `s`.
pub open spec fn is_first_occurrence(s: Seq<char>, pat: Seq<char>, i: int) -> bool {
    &&& occurs_at(s, pat, i)
    &&& forall|j: int| 0 <= j < i ==> !occurs_at(s, pat, j)
}

/// The index of the leftmost occurrence of `pat` in `s`, if any.
pub open spec fn find(s: Seq<char>, pat: Seq<char>) -> Option<int> {
    if exists|i: int| is_first_occurrence(s, pat, i) {
        Some(choose|i: int| is_first_occurrence(s, pat, i))
    } else {
        None
    }
}

/// The text before and after the leftmost occurrence of `pat`, if `pat` occurs.
pub open spec fn split_once(s: Seq<char>, pat: Seq<char>) -> Option<(Seq<char>, Seq<char>)> {
    match find(s, pat) {
        Some(i) => Some((s.take(i), s.skip(i + pat.len()))),
        None => None,
    }
}

/// The text before the leftmost occurrence of `pat`, or all of `s`.
pub open spec fn before_first(s: Seq<char>, pat: Seq<char>) -> Seq<char> {
    match find(s, pat) {
        Some(i) => s.take(i),
        None => s,
    }
}

/// `s` ends with `suffix`.
pub open spec fn ends_with(s: Seq<char>, suffix: Seq<char>) -> bool {
    s.len() >= suffix.len() && s.skip(s.len() - suffix.len()) == suffix
}

pub proof fn lemma_find_first(s: Seq<char>, pat: Seq<char>, i: int)
    requires
        is_first_occurrence(s, pat, i),
    ensures
        find(s, pat) == Some(i),
{
    let k = choose|k: int| is_first_occurrence(s, pat, k);
    assert(is_first_occurrence(s, pat, k));
    if k < i {
        assert(!occurs_at(s, pat, k));
    } else if i < k {
        assert(!occurs_at(s, pat, i));
    }
}

pub proof fn lemma_find_none(s: Seq<char>, pat: Seq<char>)
    requires
        forall|j: int| !occurs_at(s, pat, j),
    ensures
        find(s, pat) is None,
{
    if exists|i: int| is_first_occurrence(s, pat, i) {
        let k = choose|k: int| is_first_occurrence(s, pat, k);
        assert(occurs_at(s, pat, k));
    }
}

/// When `pat` occurs somewhere in `s`, it has a leftmost occurrence.
pub proof fn lemma_first_occurrence_exists(s: Seq<char>, pat: Seq<char>, i: int)
    requires
        occurs_at(s, pat, i),
    ensures
        exists|k: int| is_first_occurrence(s, pat, k),
    decreases i,
{
    if exists|j: int| 0 <= j < i && occurs_at(s, pat, j) {
        let j = choose|j: int| 0 <= j < i && occurs_at(s, pat, j);
        lemma_first_occurrence_exists(s, pat, j);
    } else {
        assert(is_first_occurrence(s, pat, i));
    }
}

/// `find` is `None` exactly when `pat` occurs nowhere in `s`.
pub proof fn lemma_find_none_iff(s: Seq<char>, pat: Seq<char>)
    ensures
        find(s, pat) is None <==> forall|j: int| !occurs_at(s, pat, j),
{
    if find(s, pat) is None {
        assert forall|j: int| !occurs_at(s, pat, j) by {
            if occurs_at(s, pat, j) {
                lemma_first_occurrence_exists(s, pat, j);
            }
        }
    } else {
        let k = choose|k: int| is_first_occurrence(s, pat, k);
        assert(occurs_at(s, pat, k));
    }
}

/// The value of a sequence of decimal digits.
pub open spec fn decimal_value(digits: Seq<char>) -> int
    decreases digits.len(),
{
    if digits.len() == 0 {
        0
    } else {
        10 * decimal_value(digits.drop_last()) + (digits.last() as int - '0' as int)
    }
}

/// Every character is a decimal digit.
pub open spec fn all_digits(s: Seq<char>) -> bool {
    forall|i: int| 0 <= i < s.len() ==> '0' <= #[trigger] s[i] <= '9'
}

proof fn lemma_digit_char(d: nat)
    requires
        d < 10,
    ensures
        digit_char(d) as int - '0' as int == d,
        '0' <= digit_char(d) <= '9',
        d > 0 ==> digit_char(d) != '0',
{
}

/// Writing a number in decimal is faithful: the text is all digits, has no
/// leading zero, and denotes the number.
pub proof fn law_decimal_denotes(n: nat)
    ensures
        all_digits(decimal(n)),
        decimal(n).len() > 0,
        n > 0 ==> decimal(n)[0] != '0',
        decimal_value(decimal(n)) == n,
    decreases n,
{
    let d = decimal(n);
    if n >= 10 {
        law_decimal_denotes(n / 10);
        lemma_digit_char(n % 10);
        assert(d.drop_last() =~= decimal(n / 10));
        assert(d[0] == decimal(n / 10)[0]);
        assert forall|i: int| 0 <= i < d.len() implies '0' <= #[trigger] d[i] <= '9' by {
            if i < d.len() - 1 {
                assert(d[i] == decimal(n / 10)[i]);
            }
        }
        assert(decimal_value(d) == 10 * decimal_value(decimal(n / 10)) + (digit_char(n % 10) as int
            - '0' as int));
    } else {
        lemma_digit_char(n);
        assert(d.drop_last() =~= Seq::<char>::empty());
        assert(decimal_value(d) == 10 * decimal_value(d.drop_last()) + (d.last() as int - '0' as int));
    }
}

/// The characters of `s`, one by one.
pub fn chars_of(s: &str) -> (v: Vec<char>)
    ensures
        v@ == s@,
{
    broadcast use vstd::string::group_string_axioms;
    let mut v: Vec<char> = Vec::new();
    for c in it: s.chars()
        invariant
            it.seq() == s@,
            v@ == it.seq().take(it.index() as int),
    {
        v.push(c);
    }
    assert(v@ =~= s@);
    v
}

/// Whether `pat` occurs in `text` at index `i`.
fn matches_at(text: &Vec<char>, i: usize, pat: &Vec<char>) -> (r: bool)
    requires
        i + pat@.len() <= text@.len(),
    ensures
        r == occurs_at(text@, pat@, i as int),
{
    let tlen = text.len();
    let mut k: usize = 0;
    while k < pat.len()
        invariant
            tlen == text@.len(),
            i + pat@.len() <= text@.len(),
            k <= pat@.len(),
            forall|m: int| 0 <= m < k ==> text@[i + m] == pat@[m],
        decreases pat@.len() - k,
    {
        if text[i + k] != pat[k] {
            assert(text@.subrange(i as int, i + pat@.len())[k as int] != pat@[k as int]);
            return false;
        }
        k = k + 1;
    }
    assert(text@.subrange(i as int, i + pat@.len()) =~= pat@);
    true
}

/// The leftmost occurrence of `pat` in `text[start..end]`, as an index into `text`.
pub fn find_in(text: &Vec<char>, start: usize, end: usize, pat: &Vec<char>) -> (r: Option<usize>)
    requires
        start <= end <= text@.len(),
        pat@.len() > 0,
    ensures
        match r {
            Some(k) => start <= k && find(text@.subrange(start as int, end as int), pat@) == Some(
                k - start,
            ),
            None => find(text@.subrange(start as int, end as int), pat@) is None,
        },
{
    let ghost sub = text@.subrange(start as int, end as int);
    let plen = pat.len();
    let mut i: usize = start;
    while i < end && plen <= end - i
        invariant
            start <= i <= end <= text@.len(),
            plen == pat@.len(),
            sub == text@.subrange(start as int, end as int),
            forall|j: int| 0 <= j < i - start ==> !occurs_at(sub, pat@, j),
        decreases end - i,
    {
        let hit = matches_at(text, i, pat);
        assert(sub.subrange(i - start, i - start + plen) =~= text@.subrange(
            i as int,
            i + plen,
        ));
        if hit {
            proof {
                lemma_find_first(sub, pat@, i - start);
            }
            return Some(i);
        }
        i = i + 1;
    }
    proof {
        assert forall|j: int| !occurs_at(sub, pat@, j) by {
            if 0 <= j < i - start {
            }
        }
        lemma_find_none(sub, pat@);
    }
    None
}

/// The text of `s` between character positions `from` and `to`.
pub fn text_between(s: &str, from: usize, to: usize) -> (r: String)
    requires
        from <= to <= s@.len(),
    ensures
        r@ == s@.subrange(from as int, to as int),
{
    s.substring_char(from, to).to_owned()
}

/// The decimal digit `d` as a character.
pub open spec fn digit_char(d: nat) -> char {
    if d == 0 { '0' }
    else if d == 1 { '1' }
    else if d == 2 { '2' }
    else if d == 3 { '3' }
    else if d == 4 { '4' }
    else if d == 5 { '5' }
    else if d == 6 { '6' }
    else if d == 7 { '7' }
    else if d == 8 { '8' }
    else { '9' }
}

/// `n` written in decimal, without leading zeros.
pub open spec fn decimal(n: nat) -> Seq<char>
    decreases n,
{
    if n < 10 {
        seq![digit_char(n)]
    } else {
        decimal(n / 10).push(digit_char(n % 10))
    }
}

/// `n` written in decimal, with a leading `-` when negative.
pub open spec fn signed_decimal(n: int) -> Seq<char> {
    if n < 0 {
        seq!['-'] + decimal((-n) as nat)
    } else {
        decimal(n as nat)
    }
}

/// Writing a signed number is faithful: a negative one is a `-` followed by
/// the decimal digits of its magnitude; any other is its decimal digits alone.
pub proof fn law_signed_decimal_denotes(n: int)
    ensures
        n < 0 ==> {
            &&& signed_decimal(n)[0] == '-'
            &&& all_digits(signed_decimal(n).skip(1))
            &&& decimal_value(signed_decimal(n).skip(1)) == -n
        },
        n >= 0 ==> all_digits(signed_decimal(n)) && decimal_value(signed_decimal(n)) == n,
{
    if n < 0 {
        law_decimal_denotes((-n) as nat);
        assert(signed_decimal(n).skip(1) =~= decimal((-n) as nat));
    } else {
        law_decimal_denotes(n as nat);
    }
}

fn digit_text(d: u64) -> (r: &'static str)
    requires
        d < 10,
    ensures
        r@ == seq![digit_char(d as nat)],
{
    proof {
        reveal_strlit("0");
        reveal_strlit("1");
        reveal_strlit("2");
        reveal_strlit("3");
        reveal_strlit("4");
        reveal_strlit("5");
        reveal_strlit("6");
        reveal_strlit("7");
        reveal_strlit("8");
        reveal_strlit("9");
    }
    if d == 0 { "0" }
    else if d == 1 { "1" }
    else if d == 2 { "2" }
    else if d == 3 { "3" }
    else if d == 4 { "4" }
    else if d == 5 { "5" }
    else if d == 6 { "6" }
    else if d == 7 { "7" }
    else if d == 8 { "8" }
    else { "9" }
}

/// Appends `n` in decimal to `out`.
pub fn push_decimal(out: &mut String, n: u64)
    ensures
        final(out)@ == old(out)@ + decimal(n as nat),
    decreases n,
{
    if n >= 10 {
        push_decimal(out, n / 10);
    }
    out.append(digit_text(n % 10));
    assert(final(out)@ =~= old(out)@ + decimal(n as nat));
}

/// Appends `n` in decimal, with a leading `-` when negative, to `out`.
pub fn push_signed_decimal(out: &mut String, n: i32)
    ensures
        final(out)@ == old(out)@ + signed_decimal(n as int),
{
    if n < 0 {
        proof {
            reveal_strlit("-");
        }
        out.append("-");
        let magnitude: u64 = (0i64 - (n as i64)) as u64;
        push_decimal(out, magnitude);
        assert(final(out)@ =~= old(out)@ + signed_decimal(n as int));
    } else {
        push_decimal(out, n as u64);
    }
}

} // verus!
