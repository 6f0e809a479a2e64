//! Building messages out of pieces of text.

use vstd::prelude::*;

verus! {

/// `a` followed by `b`.
pub fn join2(a: &str, b: &str) -> (r: String)
    ensures
        r@ == a@ + b@,
{
    let mut s = String::from_str(a);
    s.append(b);
    s
}

/// `a`, `b` and `c` one after the other.
pub fn join3(a: &str, b: &str, c: &str) -> (r: String)
    ensures
        r@ == a@ + b@ + c@,
{
    let mut s = String::from_str(a);
    s.append(b);
    s.append(c);
    s
}

/// `a`, `b`, `c` and `d` one after the other.
pub fn join4(a: &str, b: &str, c: &str, d: &str) -> (r: String)
    ensures
        r@ == a@ + b@ + c@ + d@,
{
    let mut s = String::from_str(a);
    s.append(b);
    s.append(c);
    s.append(d);
    s
}

/// Whether two texts are the same.
pub fn same_text(a: &str, b: &str) -> (r: bool)
    ensures
        r == (a@ == b@),
{
    String::from_str(a) == String::from_str(b)
}

/// An optional text taken as its characters.
pub open spec fn option_text(s: Option<String>) -> Option<Seq<char>> {
    match s {
        Some(t) => Some(t@),
        None => None,
    }
}

/// Copies an optional text.
pub fn copy_opt_string(s: &Option<String>) -> (r: Option<String>)
    ensures
        option_text(r) == option_text(*s),
{
    match s {
        Some(t) => Some(t.clone()),
        None => None,
    }
}

/// A list of texts taken as their characters.
pub open spec fn texts(v: Seq<String>) -> Seq<Seq<char>> {
    v.map_values(|s: String| s@)
}

/// Copies a list of texts.
pub fn copy_strings(v: &Vec<String>) -> (r: Vec<String>)
    ensures
        texts(r@) == texts(v@),
{
    let mut r: Vec<String> = Vec::new();
    let n = v.len();
    let mut i: usize = 0;
    while i < n
        invariant
            n == v@.len(),
            i <= n,
            r@.len() == i,
            forall|j: int| 0 <= j < i ==> #[trigger] r@[j]@ == v@[j]@,
        decreases n - i,
    {
        r.push(v[i].clone());
        i = i + 1;
    }
    assert(texts(r@) =~= texts(v@));
    r
}

/// A result whose texts are taken as their characters.
pub open spec fn result_text(r: Result<String, String>) -> Result<Seq<char>, Seq<char>> {
    match r {
        Ok(t) => Ok(t@),
        Err(e) => Err(e@),
    }
}

/// A result without value whose error text is taken as its characters.
pub open spec fn unit_result_text(r: Result<(), String>) -> Result<(), Seq<char>> {
    match r {
        Ok(()) => Ok(()),
        Err(e) => Err(e@),
    }
}

/// The texts of `v` other than `t`, in order.
pub fn texts_without(v: &Vec<String>, t: &String) -> (r: Vec<String>)
    ensures
        texts(r@) == texts(v@).filter(|x: Seq<char>| x != t@),
{
    let ghost p = |x: Seq<char>| x != t@;
    let mut r: Vec<String> = Vec::new();
    let n = v.len();
    let mut i: usize = 0;
    assert(texts(r@) =~= texts(v@).take(0).filter(p)) by {
        reveal(Seq::filter);
    }
    while i < n
        invariant
            n == v@.len(),
            i <= n,
            p == (|x: Seq<char>| x != t@),
            texts(r@) == texts(v@).take(i as int).filter(p),
        decreases n - i,
    {
        let ghost before = texts(r@);
        if !(v[i] == *t) {
            r.push(v[i].clone());
            assert(texts(r@) =~= before.push(v@[i as int]@));
        }
        proof {
            reveal(Seq::filter);
            assert(texts(v@).take(i + 1).drop_last() =~= texts(v@).take(i as int));
            assert(texts(v@).take(i + 1).last() == v@[i as int]@);
        }
        i = i + 1;
    }
    assert(texts(v@).take(n as int) =~= texts(v@));
    r
}

/// Whether `t` is one of the texts of `v`.
pub fn contains_text(v: &Vec<String>, t: &String) -> (r: bool)
    ensures
        r == texts(v@).contains(t@),
{
    let n = v.len();
    let mut i: usize = 0;
    while i < n
        invariant
            n == v@.len(),
            i <= n,
            forall|j: int| 0 <= j < i ==> #[trigger] texts(v@)[j] != t@,
        decreases n - i,
    {
        if v[i] == *t {
            assert(texts(v@)[i as int] == t@);
            return true;
        }
        i = i + 1;
    }
    false
}

} // verus!
