//! Text compared and ordered character by character.

use vstd::prelude::*;
use vstd::string::*;

verus! {

/// Whether `a` and `b` agree on their first `k` characters.
pub open spec fn agree_upto(a: Seq<char>, b: Seq<char>, k: int) -> bool {
    &&& 0 <= k <= a.len()
    &&& k <= b.len()
    &&& forall|j: int| 0 <= j < k ==> a[j] == b[j]
}

/// Whether `a` comes before `b` by what stands at `k`: the two agree up to
/// there, and then `a` ends while `b` goes on, or `a` holds the smaller
/// character.
pub open spec fn before_at(a: Seq<char>, b: Seq<char>, k: int) -> bool {
    &&& agree_upto(a, b, k)
    &&& k < b.len()
    &&& k < a.len() ==> a[k] < b[k]
}

/// The strict lexicographic order on text, characters ranked by code point.
pub open spec fn precedes(a: Seq<char>, b: Seq<char>) -> bool {
    exists|k: int| before_at(a, b, k)
}

/// Nothing comes before itself.
pub proof fn lemma_precedes_irreflexive(a: Seq<char>)
    ensures
        !precedes(a, a),
{
}

/// The order is transitive.
pub proof fn lemma_precedes_transitive(a: Seq<char>, b: Seq<char>, c: Seq<char>)
    requires
        precedes(a, b),
        precedes(b, c),
    ensures
        precedes(a, c),
{
    let k1 = choose|k: int| before_at(a, b, k);
    let k2 = choose|k: int| before_at(b, c, k);
    let k = if k1 <= k2 { k1 } else { k2 };
    assert(before_at(a, c, k));
}

/// Of two different texts one comes before the other.
pub proof fn lemma_precedes_total(a: Seq<char>, b: Seq<char>)
    requires
        a != b,
    ensures
        precedes(a, b) || precedes(b, a),
{
    lemma_first_difference(a, b, 0);
}

/// Two different texts that agree up to `k` differ from there on, which
/// puts one of them before the other.
proof fn lemma_first_difference(a: Seq<char>, b: Seq<char>, k: int)
    requires
        a != b,
        agree_upto(a, b, k),
    ensures
        precedes(a, b) || precedes(b, a),
    decreases a.len() - k,
{
    if k < a.len() && k < b.len() && a[k] == b[k] {
        assert(agree_upto(a, b, k + 1));
        lemma_first_difference(a, b, k + 1);
    } else if k == a.len() && k == b.len() {
        assert(a =~= b);
    } else {
        assert(agree_upto(b, a, k));
        assert(before_at(a, b, k) || before_at(b, a, k));
    }
}

/// The characters of `s`, in order.
pub fn chars_of(s: &str) -> (chars: Vec<char>)
    ensures
        chars@ == s@,
{
    let mut chars: Vec<char> = Vec::new();
    for c in it: s.chars()
        invariant
            chars@ == it.seq().take(it.index() as int),
    {
        chars.push(c);
    }
    chars
}

/// Whether `a` and `b` hold the same characters.
pub fn same_text(a: &str, b: &str) -> (same: bool)
    ensures
        same == (a@ == b@),
{
    let left = chars_of(a);
    let right = chars_of(b);
    if left.len() != right.len() {
        return false;
    }
    let mut i: usize = 0;
    while i < left.len()
        invariant
            left@ == a@,
            right@ == b@,
            left.len() == right.len(),
            i <= left.len(),
            forall|j: int| 0 <= j < i ==> left@[j] == right@[j],
        decreases left.len() - i,
    {
        if left[i] != right[i] {
            return false;
        }
        i += 1;
    }
    assert(left@ =~= right@);
    true
}

/// Whether `a` comes before `b` in the lexicographic order.
pub fn text_precedes(a: &str, b: &str) -> (before: bool)
    ensures
        before == precedes(a@, b@),
{
    let left = chars_of(a);
    let right = chars_of(b);
    let mut i: usize = 0;
    while i < left.len() && i < right.len()
        invariant
            left@ == a@,
            right@ == b@,
            agree_upto(left@, right@, i as int),
        decreases left.len() - i,
    {
        if left[i] != right[i] {
            let before = left[i] < right[i];
            proof {
                lemma_decided_at(a@, b@, i as int);
            }
            return before;
        }
        i += 1;
    }
    proof {
        lemma_decided_at(a@, b@, i as int);
    }
    i < right.len()
}

/// Once the common prefix of `a` and `b` is known to end at `k`, the order
/// of the two is read off at `k`.
proof fn lemma_decided_at(a: Seq<char>, b: Seq<char>, k: int)
    requires
        agree_upto(a, b, k),
        k == a.len() || k == b.len() || a[k] != b[k],
    ensures
        precedes(a, b) == before_at(a, b, k),
{
    if precedes(a, b) {
        let w = choose|w: int| before_at(a, b, w);
        assert(w == k);
    }
}

/// The decimal digit that stands for `d`; meant for `d` below ten.
pub open spec fn digit(d: nat) -> Seq<char> {
    if d == 0 {
        "0"@
    } else if d == 1 {
        "1"@
    } else if d == 2 {
        "2"@
    } else if d == 3 {
        "3"@
    } else if d == 4 {
        "4"@
    } else if d == 5 {
        "5"@
    } else if d == 6 {
        "6"@
    } else if d == 7 {
        "7"@
    } else if d == 8 {
        "8"@
    } else {
        "9"@
    }
}

/// The decimal digits of `n`, the most significant first, none of them a
/// leading zero unless `n` is zero.
pub open spec fn digits(n: nat) -> Seq<char>
    decreases n,
{
    if n < 10 {
        digit(n)
    } else {
        digits(n / 10) + digit(n % 10)
    }
}

/// The decimal numeral of `n`, with a minus sign in front where `n` is
/// negative.
pub open spec fn decimal(n: int) -> Seq<char> {
    if n < 0 {
        "-"@ + digits((-n) as nat)
    } else {
        digits(n as nat)
    }
}

fn digit_text(d: u32) -> (text: &'static str)
    requires
        d < 10,
    ensures
        text@ == digit(d as nat),
{
    if d == 0 {
        "0"
    } else if d == 1 {
        "1"
    } else if d == 2 {
        "2"
    } else if d == 3 {
        "3"
    } else if d == 4 {
        "4"
    } else if d == 5 {
        "5"
    } else if d == 6 {
        "6"
    } else if d == 7 {
        "7"
    } else if d == 8 {
        "8"
    } else {
        "9"
    }
}

fn append_digits(text: &mut String, n: u32)
    ensures
        final(text)@ == old(text)@ + digits(n as nat),
    decreases n,
{
    if n >= 10 {
        append_digits(text, n / 10);
    }
    text.append(digit_text(n % 10));
}

/// The decimal numeral of `value`.
pub fn decimal_text(value: i32) -> (text: String)
    ensures
        text@ == decimal(value as int),
{
    let wide: i64 = value as i64;
    let mut text = String::new();
    if wide < 0 {
        text.append("-");
        append_digits(&mut text, (-wide) as u32);
    } else {
        append_digits(&mut text, wide as u32);
    }
    text
}

} // verus!
