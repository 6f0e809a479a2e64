//! Decimal rendering of counters and the identifiers built from them
//! ("session-0", "tab-3", "agent-12", ...).

use vstd::prelude::*;
use crate::table::{has_key, insert_entry, key_index, key_seq, remove_entry};

verus! {

/// The character of a decimal digit.
pub open spec fn digit_char(d: nat) -> char {
    if d == 0 {
        '0'
    } else if d == 1 {
        '1'
    } else if d == 2 {
        '2'
    } else if d == 3 {
        '3'
    } else if d == 4 {
        '4'
    } else if d == 5 {
        '5'
    } else if d == 6 {
        '6'
    } else if d == 7 {
        '7'
    } else if d == 8 {
        '8'
    } else {
        '9'
    }
}

/// The decimal notation of `n`, most significant digit first, without leading zeros.
pub open spec fn decimal(n: nat) -> Seq<char>
    decreases n,
{
    if n < 10 {
        seq![digit_char(n)]
    } else {
        decimal(n / 10).push(digit_char(n % 10))
    }
}

/// An identifier made of a prefix followed by a counter in decimal.
pub open spec fn numbered(prefix: Seq<char>, n: nat) -> Seq<char> {
    prefix + decimal(n)
}

/// Only the numbers below ten have a one-character notation.
pub proof fn lemma_decimal_len(n: nat)
    ensures
        decimal(n).len() >= 1,
        (decimal(n).len() == 1) <==> n < 10,
    decreases n,
{
    if n >= 10 {
        lemma_decimal_len(n / 10);
    }
}

proof fn lemma_digit_char_injective(a: nat, b: nat)
    requires
        a < 10,
        b < 10,
        digit_char(a) == digit_char(b),
    ensures
        a == b,
{
}

/// Different numbers have different decimal notations.
pub proof fn lemma_decimal_injective(a: nat, b: nat)
    requires
        decimal(a) == decimal(b),
    ensures
        a == b,
    decreases a,
{
    lemma_decimal_len(a);
    lemma_decimal_len(b);
    if a < 10 {
        assert(decimal(a)[0] == digit_char(a));
        if b >= 10 {
            assert(false);
        }
        lemma_digit_char_injective(a, b);
    } else {
        if b < 10 {
            assert(false);
        }
        let da = decimal(a / 10);
        let db = decimal(b / 10);
        assert(decimal(a) == da.push(digit_char(a % 10)));
        assert(decimal(b) == db.push(digit_char(b % 10)));
        assert(da =~= decimal(a).drop_last());
        assert(db =~= decimal(b).drop_last());
        lemma_decimal_injective(a / 10, b / 10);
        assert(decimal(a).last() == digit_char(a % 10));
        lemma_digit_char_injective(a % 10, b % 10);
    }
}

/// Identifiers with the same prefix are equal only for equal counters.
pub proof fn lemma_numbered_injective(prefix: Seq<char>, a: nat, b: nat)
    requires
        numbered(prefix, a) == numbered(prefix, b),
    ensures
        a == b,
{
    let sa = numbered(prefix, a);
    assert(decimal(a) =~= sa.subrange(prefix.len() as int, sa.len() as int));
    assert(decimal(b) =~= numbered(prefix, b).subrange(prefix.len() as int, sa.len() as int));
    lemma_decimal_injective(a, b);
}

fn digit_str(d: u64) -> (r: &'static str)
    requires
        d < 10,
    ensures
        r@ == seq![digit_char(d as nat)],
{
    proof {
        reveal_strlit("0");
        reveal_strlit("1");
        reveal_strlit("2");
        reveal_strlit("3");
        reveal_strlit("4");
        reveal_strlit("5");
        reveal_strlit("6");
        reveal_strlit("7");
        reveal_strlit("8");
        reveal_strlit("9");
    }
    if d == 0 {
        "0"
    } else if d == 1 {
        "1"
    } else if d == 2 {
        "2"
    } else if d == 3 {
        "3"
    } else if d == 4 {
        "4"
    } else if d == 5 {
        "5"
    } else if d == 6 {
        "6"
    } else if d == 7 {
        "7"
    } else if d == 8 {
        "8"
    } else {
        "9"
    }
}

/// Writes `n` in decimal.
pub fn decimal_string(n: u64) -> (r: String)
    ensures
        r@ == decimal(n as nat),
    decreases n,
{
    if n < 10 {
        String::from_str(digit_str(n))
    } else {
        let mut s = decimal_string(n / 10);
        s.append(digit_str(n % 10));
        s
    }
}

/// Builds `prefix` followed by `n` in decimal, as `format!("{}{}", prefix, n)` does.
pub fn numbered_id(prefix: &str, n: u64) -> (r: String)
    ensures
        r@ == numbered(prefix@, n as nat),
{
    let mut s = String::from_str(prefix);
    let d = decimal_string(n);
    s.append(d.as_str());
    s
}


/// `id` is one of the ids numbered under `prefix` before the count reached `next`.
pub open spec fn issued_id(prefix: Seq<char>, id: Seq<char>, next: u64) -> bool {
    exists|n: u64| n < next && id == numbered(prefix, n as nat)
}

/// Every key of `s` is an id numbered under `prefix` before the count reached `next`.
pub open spec fn ids_issued<V>(s: Seq<(Seq<char>, V)>, prefix: Seq<char>, next: u64) -> bool {
    forall|i: int| 0 <= i < s.len() ==> issued_id(prefix, #[trigger] s[i].0, next)
}

/// The id for the current count is not a key yet.
pub proof fn lemma_fresh_id<V>(s: Seq<(Seq<char>, V)>, prefix: Seq<char>, next: u64)
    requires
        ids_issued(s, prefix, next),
    ensures
        !has_key(s, numbered(prefix, next as nat)),
{
    if has_key(s, numbered(prefix, next as nat)) {
        let j = key_index(s, numbered(prefix, next as nat));
        assert(issued_id(prefix, s[j].0, next));
        let n = choose|n: u64| n < next && s[j].0 == numbered(prefix, n as nat);
        lemma_numbered_injective(prefix, n as nat, next as nat);
    }
}

/// Ids given out before a count were given out before any later count.
pub proof fn lemma_ids_issued_grow<V>(
    s: Seq<(Seq<char>, V)>,
    prefix: Seq<char>,
    next: u64,
    later: u64,
)
    requires
        ids_issued(s, prefix, next),
        next <= later,
    ensures
        ids_issued(s, prefix, later),
{
    assert forall|i: int| 0 <= i < s.len() implies issued_id(prefix, #[trigger] s[i].0, later) by {
        assert(issued_id(prefix, s[i].0, next));
        let n = choose|n: u64| n < next && s[i].0 == numbered(prefix, n as nat);
        assert(n < later && s[i].0 == numbered(prefix, n as nat));
    }
}

/// Storing under an id that was given out keeps every key one that was given out.
pub proof fn lemma_ids_issued_insert<V>(
    s: Seq<(Seq<char>, V)>,
    prefix: Seq<char>,
    next: u64,
    k: Seq<char>,
    v: V,
)
    requires
        ids_issued(s, prefix, next),
        issued_id(prefix, k, next),
    ensures
        ids_issued(insert_entry(s, k, v), prefix, next),
{
    let t = insert_entry(s, k, v);
    assert forall|i: int| 0 <= i < t.len() implies issued_id(prefix, #[trigger] t[i].0, next) by {
        if i < s.len() && !(has_key(s, k) && i == key_index(s, k)) {
            assert(t[i] == s[i]);
        }
    }
}

/// Taking out an entry keeps every key one that was given out.
pub proof fn lemma_ids_issued_remove<V>(
    s: Seq<(Seq<char>, V)>,
    prefix: Seq<char>,
    next: u64,
    k: Seq<char>,
)
    requires
        ids_issued(s, prefix, next),
    ensures
        ids_issued(remove_entry(s, k), prefix, next),
{
    let t = remove_entry(s, k);
    if has_key(s, k) {
        let j = key_index(s, k);
        assert forall|i: int| 0 <= i < t.len() implies issued_id(prefix, #[trigger] t[i].0, next) by {
            if i < j {
                assert(t[i] == s[i]);
            } else {
                assert(t[i] == s[i + 1]);
            }
        }
    }
}

/// Keeping some of the entries keeps every key one that was given out.
pub proof fn lemma_ids_issued_filter<V>(
    s: Seq<(Seq<char>, V)>,
    prefix: Seq<char>,
    next: u64,
    keep: spec_fn((Seq<char>, V)) -> bool,
)
    requires
        ids_issued(s, prefix, next),
    ensures
        ids_issued(s.filter(keep), prefix, next),
{
    let t = s.filter(keep);
    assert forall|i: int| 0 <= i < t.len() implies issued_id(prefix, #[trigger] t[i].0, next) by {
        assert(t.contains(t[i]));
        s.lemma_filter_contains_rev(keep, t[i]);
        let j = choose|j: int| 0 <= j < s.len() && s[j] == t[i];
        assert(issued_id(prefix, s[j].0, next));
    }
}

/// Entries with the same keys in the same order have keys that were given out alike.
pub proof fn lemma_ids_issued_same_keys<V, W>(
    s: Seq<(Seq<char>, V)>,
    t: Seq<(Seq<char>, W)>,
    prefix: Seq<char>,
    next: u64,
)
    requires
        ids_issued(s, prefix, next),
        key_seq(s) == key_seq(t),
    ensures
        ids_issued(t, prefix, next),
{
    assert forall|i: int| 0 <= i < t.len() implies issued_id(prefix, #[trigger] t[i].0, next) by {
        assert(key_seq(t).len() == t.len());
        assert(key_seq(s).len() == s.len());
        assert(key_seq(t)[i] == t[i].0);
        assert(key_seq(s)[i] == s[i].0);
        assert(issued_id(prefix, s[i].0, next));
    }
}

} // verus!
