//! JSON Pointers into a document.
use vstd::prelude::*;

use crate::json::{entries_model, lemma_array_view, lemma_object_view, obj_get, Json, JsonModel};

verus! {

/// The segments of `s` between `/` separators, from index `i` on, where `cur`
/// is the segment read so far and `acc` the segments before it.
pub open spec fn split_from(s: Seq<char>, i: nat, cur: Seq<char>, acc: Seq<Seq<char>>) -> Seq<Seq<char>>
    decreases s.len() - i,
{
    if i >= s.len() {
        acc.push(cur)
    } else if s[i as int] == '/' {
        split_from(s, i + 1, Seq::empty(), acc.push(cur))
    } else {
        split_from(s, i + 1, cur.push(s[i as int]), acc)
    }
}

/// A pointer token with `~1` read as `/` and `~0` as `~`, from index `i` on,
/// appended to `acc`.
pub open spec fn unescape_from(t: Seq<char>, i: nat, acc: Seq<char>) -> Seq<char>
    decreases t.len() - i,
{
    if i >= t.len() {
        acc
    } else if t[i as int] == '~' && i + 1 < t.len() && t[i as int + 1] == '1' {
        unescape_from(t, i + 2, acc.push('/'))
    } else if t[i as int] == '~' && i + 1 < t.len() && t[i as int + 1] == '0' {
        unescape_from(t, i + 2, acc.push('~'))
    } else {
        unescape_from(t, i + 1, acc.push(t[i as int]))
    }
}

/// The value of a decimal digit character.
pub open spec fn digit_value(c: char) -> Option<nat> {
    if '0' <= c && c <= '9' {
        Some((c as nat - '0' as nat) as nat)
    } else {
        None
    }
}

/// The number that the digits of `t` from index `i` on give, after `acc`.
pub open spec fn digits_from(t: Seq<char>, i: nat, acc: nat) -> Option<nat>
    decreases t.len() - i,
{
    if i >= t.len() {
        Some(acc)
    } else {
        match digit_value(t[i as int]) {
            Some(d) => digits_from(t, i + 1, acc * 10 + d),
            None => None,
        }
    }
}

/// The array index a token names: decimal digits without a leading zero.
pub open spec fn index_of(t: Seq<char>) -> Option<nat> {
    if t.len() == 0 || (t.len() > 1 && t[0] == '0') {
        None
    } else {
        digits_from(t, 0, 0)
    }
}

/// The value reached from `v` by the tokens from index `k` on.
pub open spec fn walk(v: JsonModel, toks: Seq<Seq<char>>, k: nat) -> Option<JsonModel>
    decreases toks.len() - k,
{
    if k >= toks.len() {
        Some(v)
    } else {
        let t = unescape_from(toks[k as int], 0, Seq::empty());
        match v {
            JsonModel::Object(m) => match obj_get(m, t) {
                Some(x) => walk(x, toks, k + 1),
                None => None,
            },
            JsonModel::Array(a) => match index_of(t) {
                Some(n) => if n < a.len() {
                    walk(a[n as int], toks, k + 1)
                } else {
                    None
                },
                None => None,
            },
            _ => None,
        }
    }
}

/// The value that the pointer `p` names in `root`: the root itself for the
/// empty pointer; none where `p` does not start with `/` or names nothing.
pub open spec fn pointer_target(root: JsonModel, p: Seq<char>) -> Option<JsonModel> {
    if p.len() == 0 {
        Some(root)
    } else if p[0] != '/' {
        None
    } else {
        walk(root, split_from(p, 1, Seq::empty(), Seq::empty()), 0)
    }
}

fn split_pointer(p: &Vec<char>, start: usize) -> (r: Vec<Vec<char>>)
    requires
        start <= p@.len(),
    ensures
        Seq::new(r@.len(), |i: int| r@[i]@) == split_from(p@, start as nat, Seq::empty(), Seq::empty()),
{
    let mut acc: Vec<Vec<char>> = Vec::new();
    let mut cur: Vec<char> = Vec::new();
    let mut i: usize = start;
    let ghost goal = split_from(p@, start as nat, Seq::empty(), Seq::empty());
    assert(Seq::new(acc@.len(), |j: int| acc@[j]@) =~= Seq::<Seq<char>>::empty());
    while i < p.len()
        invariant
            start <= i <= p@.len(),
            goal == split_from(p@, i as nat, cur@, Seq::new(acc@.len(), |j: int| acc@[j]@)),
        decreases p@.len() - i,
    {
        if p[i] == '/' {
            let ghost before = acc@;
            let done = cur;
            let ghost dv = done@;
            acc.push(done);
            cur = Vec::new();
            assert(Seq::new(acc@.len(), |j: int| acc@[j]@) =~= Seq::new(before.len(), |j: int| before[j]@).push(dv));
            assert(cur@ =~= Seq::<char>::empty());
        } else {
            cur.push(p[i]);
        }
        i += 1;
    }
    let ghost before = acc@;
    let ghost cv = cur@;
    acc.push(cur);
    assert(Seq::new(acc@.len(), |j: int| acc@[j]@) =~= Seq::new(before.len(), |j: int| before[j]@).push(cv));
    acc
}

fn unescape(t: &Vec<char>) -> (r: Vec<char>)
    ensures
        r@ == unescape_from(t@, 0, Seq::empty()),
{
    let mut out: Vec<char> = Vec::new();
    let mut i: usize = 0;
    let ghost goal = unescape_from(t@, 0, Seq::empty());
    while i < t.len()
        invariant
            i <= t@.len(),
            goal == unescape_from(t@, i as nat, out@),
        decreases t@.len() - i,
    {
        if t[i] == '~' && i + 1 < t.len() && t[i + 1] == '1' {
            out.push('/');
            i += 2;
        } else if t[i] == '~' && i + 1 < t.len() && t[i + 1] == '0' {
            out.push('~');
            i += 2;
        } else {
            out.push(t[i]);
            i += 1;
        }
    }
    out
}

fn index_value(t: &Vec<char>) -> (r: Option<usize>)
    ensures
        match r {
            Some(n) => index_of(t@) == Some(n as nat),
            None => index_of(t@) is None || index_of(t@)->Some_0 > usize::MAX,
        },
{
    if t.len() == 0 || (t.len() > 1 && t[0] == '0') {
        return None;
    }
    let mut acc: usize = 0;
    let mut i: usize = 0;
    while i < t.len()
        invariant
            i <= t@.len(),
            index_of(t@) == digits_from(t@, i as nat, acc as nat),
        decreases t@.len() - i,
    {
        let c = t[i];
        if !('0' <= c && c <= '9') {
            return None;
        }
        let d = (c as u32 - '0' as u32) as usize;
        if acc > (usize::MAX - d) / 10 {
            proof {
                lemma_digits_grow(t@, i as nat + 1, (acc * 10 + d) as nat);
            }
            return None;
        }
        acc = acc * 10 + d;
        i += 1;
    }
    Some(acc)
}

proof fn lemma_digits_grow(t: Seq<char>, i: nat, acc: nat)
    ensures
        digits_from(t, i, acc) matches Some(n) ==> n >= acc,
    decreases t.len() - i,
{
    if i < t.len() {
        match digit_value(t[i as int]) {
            Some(d) => lemma_digits_grow(t, i + 1, acc * 10 + d),
            None => {},
        }
    }
}

/// Whether a string key reads as the characters `t`.
fn key_is(k: &str, t: &Vec<char>) -> (r: bool)
    ensures
        r == (k@ == t@),
{
    let n = k.unicode_len();
    if n != t.len() {
        return false;
    }
    let mut i: usize = 0;
    while i < n
        invariant
            i <= n,
            n == k@.len(),
            n == t@.len(),
            forall|j: int| 0 <= j < i ==> k@[j] == t@[j],
        decreases n - i,
    {
        if k.get_char(i) != t[i] {
            return false;
        }
        i += 1;
    }
    assert(k@ =~= t@);
    true
}

fn entry_by_chars<'a>(entries: &'a Vec<(String, Json)>, key: &Vec<char>) -> (r: Option<&'a Json>)
    ensures
        match r {
            Some(v) => obj_get(entries_model(entries@), key@) == Some(v@),
            None => obj_get(entries_model(entries@), key@) is None,
        },
{
    let ghost m = entries_model(entries@);
    let mut i: usize = 0;
    assert(m.subrange(0, m.len() as int) =~= m);
    while i < entries.len()
        invariant
            i <= entries.len(),
            m == entries_model(entries@),
            obj_get(m, key@) == obj_get(m.subrange(i as int, m.len() as int), key@),
        decreases entries.len() - i,
    {
        assert(m.subrange(i as int, m.len() as int).drop_first() =~= m.subrange(i + 1, m.len() as int));
        if key_is(entries[i].0.as_str(), key) {
            return Some(&entries[i].1);
        }
        i += 1;
    }
    None
}

/// The value that the pointer `p` names in `root`, if any.
pub fn resolve_pointer<'a>(root: &'a Json, p: &Vec<char>) -> (r: Option<&'a Json>)
    ensures
        match r {
            Some(v) => pointer_target(root@, p@) == Some(v@),
            None => pointer_target(root@, p@) is None,
        },
{
    if p.len() == 0 {
        return Some(root);
    }
    if p[0] != '/' {
        return None;
    }
    let toks = split_pointer(p, 1);
    let ghost tm = Seq::new(toks@.len(), |i: int| toks@[i]@);
    let mut cur: &Json = root;
    let mut k: usize = 0;
    while k < toks.len()
        invariant
            k <= toks@.len(),
            tm == Seq::new(toks@.len(), |i: int| toks@[i]@),
            pointer_target(root@, p@) == walk(cur@, tm, k as nat),
        decreases toks@.len() - k,
    {
        let t = unescape(&toks[k]);
        match cur {
            Json::Object(m) => {
                proof {
                    lemma_object_view(*m);
                }
                match entry_by_chars(m, &t) {
                    Some(x) => {
                        cur = x;
                    },
                    None => {
                        return None;
                    },
                }
            },
            Json::Array(a) => {
                proof {
                    lemma_array_view(*a);
                }
                match index_value(&t) {
                    Some(n) => {
                        if n < a.len() {
                            cur = &a[n];
                        } else {
                            return None;
                        }
                    },
                    None => {
                        return None;
                    },
                }
            },
            _ => {
                return None;
            },
        }
        k += 1;
    }
    Some(cur)
}

} // verus!
