//! Pass counts of a suite run per top-level directory, kept in name order.

use vstd::prelude::*;
use crate::text::{chars_of, string_from_chars, string_of};

verus! {

/// `a` sorts before `b`: at the first difference `a` has the smaller
/// character, or `a` is a proper prefix of `b` (the order of `String`).
pub open spec fn name_less(a: Seq<char>, b: Seq<char>) -> bool
    decreases a.len(),
{
    if a.len() == 0 {
        b.len() > 0
    } else if b.len() == 0 {
        false
    } else if a[0] != b[0] {
        (a[0] as int) < (b[0] as int)
    } else {
        name_less(a.drop_first(), b.drop_first())
    }
}

pub proof fn lemma_name_less_irreflexive(a: Seq<char>)
    ensures
        !name_less(a, a),
    decreases a.len(),
{
    if a.len() > 0 {
        lemma_name_less_irreflexive(a.drop_first());
    }
}

pub proof fn lemma_name_less_transitive(a: Seq<char>, b: Seq<char>, c: Seq<char>)
    requires
        name_less(a, b),
        name_less(b, c),
    ensures
        name_less(a, c),
    decreases a.len(),
{
    if a.len() > 0 && b.len() > 0 && c.len() > 0 && a[0] == b[0] && b[0] == c[0] {
        lemma_name_less_transitive(a.drop_first(), b.drop_first(), c.drop_first());
    }
}

/// Two different names are ordered one way or the other.
pub proof fn lemma_name_less_total(a: Seq<char>, b: Seq<char>)
    requires
        a != b,
    ensures
        name_less(a, b) || name_less(b, a),
    decreases a.len(),
{
    if a.len() == 0 && b.len() == 0 {
        assert(a =~= b);
    }
    if a.len() > 0 && b.len() > 0 && a[0] != b[0] {
        assert((a[0] as int) != (b[0] as int));
    }
    if a.len() > 0 && b.len() > 0 && a[0] == b[0] {
        if a.drop_first() == b.drop_first() {
            assert(a =~= seq![a[0]] + a.drop_first());
            assert(b =~= seq![b[0]] + b.drop_first());
        }
        lemma_name_less_total(a.drop_first(), b.drop_first());
    }
}

/// The index of the first `/` in `rel` at or after `i`.
pub open spec fn first_slash(rel: Seq<char>, i: nat) -> Option<nat>
    decreases rel.len() - i,
{
    if i >= rel.len() {
        None
    } else if rel[i as int] == '/' {
        Some(i)
    } else {
        first_slash(rel, i + 1)
    }
}

/// The directory a case is counted under: its path up to the first `/`,
/// or `<root>` for a case at the top.
pub open spec fn bucket_key(rel: Seq<char>) -> Seq<char> {
    match first_slash(rel, 0) {
        Some(i) => rel.take(i as int),
        None => "<root>"@,
    }
}

/// The names are in strictly increasing order.
pub open spec fn sorted(es: Seq<(Seq<char>, nat, nat)>) -> bool {
    forall|i: int, j: int| 0 <= i < j < es.len() ==> name_less(#[trigger] es[i].0, #[trigger] es[j].0)
}

/// Where `k` belongs among the names of `es` from `i` on: the first
/// position whose name does not sort before it.
pub open spec fn insert_point(es: Seq<(Seq<char>, nat, nat)>, k: Seq<char>, i: nat) -> nat
    decreases es.len() - i,
{
    if i >= es.len() {
        es.len()
    } else if name_less(es[i as int].0, k) {
        insert_point(es, k, i + 1)
    } else {
        i
    }
}

/// The entries after counting one case under `k`: its counts go up by one
/// case, and one pass when it passed; a new name enters at its place.
pub open spec fn counted(es: Seq<(Seq<char>, nat, nat)>, k: Seq<char>, passed: bool) -> Seq<(Seq<char>, nat, nat)> {
    let i = insert_point(es, k, 0);
    let add: nat = if passed { 1 } else { 0 };
    if i < es.len() && es[i as int].0 == k {
        es.update(i as int, (k, es[i as int].1 + add, es[i as int].2 + 1))
    } else {
        es.insert(i as int, (k, add, 1))
    }
}

/// Pass and total counts per directory.
pub struct Tally {
    entries: Vec<(String, usize, usize)>,
}

impl View for Tally {
    type V = Seq<(Seq<char>, nat, nat)>;

    closed spec fn view(&self) -> Seq<(Seq<char>, nat, nat)> {
        self.entries@.map_values(|e: (String, usize, usize)| (e.0@, e.1 as nat, e.2 as nat))
    }
}

fn name_lt(a: &Vec<char>, b: &Vec<char>) -> (r: bool)
    ensures
        r == name_less(a@, b@),
{
    let mut i: usize = 0;
    assert(a@.skip(0) =~= a@);
    assert(b@.skip(0) =~= b@);
    while i < a.len() && i < b.len() && a[i] == b[i]
        invariant
            i <= a.len(),
            i <= b.len(),
            name_less(a@, b@) == name_less(a@.skip(i as int), b@.skip(i as int)),
        decreases a.len() - i,
    {
        proof {
            assert(a@.skip(i as int).drop_first() =~= a@.skip(i + 1));
            assert(b@.skip(i as int).drop_first() =~= b@.skip(i + 1));
        }
        i = i + 1;
    }
    if i >= a.len() {
        i < b.len()
    } else if i >= b.len() {
        false
    } else {
        a[i] < b[i]
    }
}

/// The directory a case is counted under.
pub fn bucket_name(rel: &str) -> (k: String)
    ensures
        k@ == bucket_key(rel@),
{
    let cs = chars_of(rel);
    let mut i: usize = 0;
    while i < cs.len()
        invariant
            cs@ == rel@,
            i <= cs.len(),
            first_slash(rel@, 0) == first_slash(rel@, i as nat),
        decreases cs.len() - i,
    {
        if cs[i] == '/' {
            let k = string_from_chars(&cs, 0, i);
            assert(rel@.subrange(0, i as int) =~= rel@.take(i as int));
            return k;
        }
        i = i + 1;
    }
    string_of("<root>")
}

impl Tally {
    /// The counts, in name order.
    pub closed spec fn wf(&self) -> bool {
        &&& sorted(self@)
        &&& forall|i: int| 0 <= i < self@.len() ==> #[trigger] self@[i].1 <= self@[i].2
    }

    pub fn new() -> (t: Tally)
        ensures
            t.wf(),
            t@ == Seq::<(Seq<char>, nat, nat)>::empty(),
    {
        let t = Tally { entries: Vec::new() };
        assert(t@ =~= Seq::<(Seq<char>, nat, nat)>::empty());
        t
    }

    /// Counts the case at `rel`, passed or not, under its directory.
    pub fn bucket(&mut self, rel: &str, passed: bool)
        requires
            old(self).wf(),
            forall|i: int| 0 <= i < old(self)@.len() ==> #[trigger] old(self)@[i].2 < usize::MAX,
        ensures
            final(self).wf(),
            final(self)@ == counted(old(self)@, bucket_key(rel@), passed),
    {
        let key = bucket_name(rel);
        let kc = chars_of(key.as_str());
        let ghost es = self@;
        let ghost k = key@;
        let mut i: usize = 0;
        let n = self.entries.len();
        loop
            invariant
                es == self@,
                *self == *old(self),
                n == self.entries@.len() == es.len(),
                kc@ == k,
                k == bucket_key(rel@),
                i <= n,
                insert_point(es, k, 0) == insert_point(es, k, i as nat),
            ensures
                insert_point(es, k, 0) == i,
            decreases n - i,
        {
            if i >= n {
                break;
            }
            let ec = chars_of(self.entries[i].0.as_str());
            proof {
                assert(es[i as int].0 == self.entries@[i as int].0@);
            }
            if !name_lt(&ec, &kc) {
                break;
            }
            i = i + 1;
        }
        let add: usize = if passed { 1 } else { 0 };
        if i < n && self.entries[i].0 == key {
            proof {
                assert(es[i as int].0 == k);
            }
            let p = self.entries[i].1;
            let t = self.entries[i].2;
            proof {
                assert(es[i as int].2 == t);
                assert(es[i as int].1 <= es[i as int].2);
            }
            self.entries.set(i, (key, p + add, t + 1));
            proof {
                assert(self@ =~= es.update(i as int, (k, es[i as int].1 + add as nat, es[i as int].2 + 1)));
                assert forall|a: int, b: int| 0 <= a < b < self@.len() implies name_less(
                    #[trigger] self@[a].0,
                    #[trigger] self@[b].0,
                ) by {
                    assert(self@[a].0 == es[a].0);
                    assert(self@[b].0 == es[b].0);
                }
            }
        } else {
            proof {
                if i < n {
                    assert(es[i as int].0 != k);
                    lemma_at_point(es, k, 0);
                    lemma_name_less_total(es[i as int].0, k);
                }
            }
            self.entries.insert(i, (key, add, 1));
            proof {
                let new_e = (k, add as nat, 1nat);
                assert(self@ =~= es.insert(i as int, new_e));
                assert forall|a: int, b: int| 0 <= a < b < self@.len() implies name_less(
                    #[trigger] self@[a].0,
                    #[trigger] self@[b].0,
                ) by {
                    if b < i {
                        assert(name_less(es[a].0, es[b].0));
                    } else if a < i && b == i {
                        assert(name_less(es[a].0, k)) by {
                            lemma_before_point(es, k, a as nat);
                        }
                    } else if a < i && b > i {
                        assert(name_less(es[a].0, es[b - 1].0));
                    } else if a == i && b > i {
                        if b - 1 > i {
                            assert(name_less(es[i as int].0, es[b - 1].0));
                            lemma_name_less_transitive(k, es[i as int].0, es[b - 1].0);
                        }
                    } else {
                        assert(name_less(es[a - 1].0, es[b - 1].0));
                    }
                }
            }
        }
    }

    /// The counts of one directory: its name, passes and total.
    pub fn entry(&self, i: usize) -> (r: (&str, usize, usize))
        requires
            i < self@.len(),
        ensures
            r.0@ == self@[i as int].0,
            r.1 == self@[i as int].1,
            r.2 == self@[i as int].2,
    {
        (self.entries[i].0.as_str(), self.entries[i].1, self.entries[i].2)
    }

    /// The number of directories counted.
    pub fn len(&self) -> (n: usize)
        ensures
            n == self@.len(),
    {
        self.entries.len()
    }
}

/// The name at the insert point does not sort before `k`.
proof fn lemma_at_point(es: Seq<(Seq<char>, nat, nat)>, k: Seq<char>, i: nat)
    requires
        insert_point(es, k, i) < es.len(),
    ensures
        !name_less(es[insert_point(es, k, i) as int].0, k),
    decreases es.len() - i,
{
    if i < es.len() && name_less(es[i as int].0, k) {
        lemma_at_point(es, k, i + 1);
    }
}

/// Every name before the insert point sorts before `k`.
proof fn lemma_before_point(es: Seq<(Seq<char>, nat, nat)>, k: Seq<char>, a: nat)
    requires
        a < insert_point(es, k, 0),
    ensures
        name_less(es[a as int].0, k),
{
    lemma_point_from(es, k, 0, a);
}

proof fn lemma_point_from(es: Seq<(Seq<char>, nat, nat)>, k: Seq<char>, i: nat, a: nat)
    requires
        i <= a < insert_point(es, k, i),
    ensures
        name_less(es[a as int].0, k),
    decreases es.len() - i,
{
    if i < es.len() && name_less(es[i as int].0, k) && i < a {
        lemma_point_from(es, k, i + 1, a);
    }
}

/// The sum of a column of counts.
pub open spec fn sum_of(xs: Seq<nat>) -> nat
    decreases xs.len(),
{
    if xs.len() == 0 {
        0
    } else {
        sum_of(xs.drop_last()) + xs.last()
    }
}

/// The pass counts of the entries.
pub open spec fn passes_of(es: Seq<(Seq<char>, nat, nat)>) -> Seq<nat> {
    es.map_values(|e: (Seq<char>, nat, nat)| e.1)
}

/// The case counts of the entries.
pub open spec fn cases_of(es: Seq<(Seq<char>, nat, nat)>) -> Seq<nat> {
    es.map_values(|e: (Seq<char>, nat, nat)| e.2)
}

proof fn lemma_point_bound(es: Seq<(Seq<char>, nat, nat)>, k: Seq<char>, i: nat)
    ensures
        insert_point(es, k, i) <= es.len(),
        i <= es.len() ==> i <= insert_point(es, k, i),
    decreases es.len() - i,
{
    if i < es.len() && name_less(es[i as int].0, k) {
        lemma_point_bound(es, k, i + 1);
    }
}

proof fn lemma_sum_update(xs: Seq<nat>, i: int, v: nat)
    requires
        0 <= i < xs.len(),
    ensures
        sum_of(xs.update(i, v)) + xs[i] == sum_of(xs) + v,
    decreases xs.len(),
{
    let ys = xs.update(i, v);
    if i == xs.len() - 1 {
        assert(ys.drop_last() =~= xs.drop_last());
    } else {
        assert(ys.drop_last() =~= xs.drop_last().update(i, v));
        lemma_sum_update(xs.drop_last(), i, v);
    }
}

proof fn lemma_sum_insert(xs: Seq<nat>, i: int, v: nat)
    requires
        0 <= i <= xs.len(),
    ensures
        sum_of(xs.insert(i, v)) == sum_of(xs) + v,
    decreases xs.len(),
{
    let ys = xs.insert(i, v);
    if i == xs.len() {
        assert(ys.drop_last() =~= xs);
    } else {
        assert(ys.drop_last() =~= xs.drop_last().insert(i, v));
        lemma_sum_insert(xs.drop_last(), i, v);
    }
}

/// Counting one case adds one to the cases of all directories taken
/// together, and one to their passes exactly when the case passed; its
/// directory is listed afterwards.
pub proof fn lemma_counted_totals(es: Seq<(Seq<char>, nat, nat)>, k: Seq<char>, passed: bool)
    ensures
        sum_of(cases_of(counted(es, k, passed))) == sum_of(cases_of(es)) + 1,
        sum_of(passes_of(counted(es, k, passed))) == sum_of(passes_of(es)) + (if passed { 1nat } else { 0nat }),
        insert_point(es, k, 0) < counted(es, k, passed).len(),
        counted(es, k, passed)[insert_point(es, k, 0) as int].0 == k,
{
    let i = insert_point(es, k, 0);
    lemma_point_bound(es, k, 0);
    let add: nat = if passed { 1 } else { 0 };
    if i < es.len() && es[i as int].0 == k {
        let e = (k, es[i as int].1 + add, es[i as int].2 + 1);
        assert(cases_of(es.update(i as int, e)) =~= cases_of(es).update(i as int, e.2));
        assert(passes_of(es.update(i as int, e)) =~= passes_of(es).update(i as int, e.1));
        lemma_sum_update(cases_of(es), i as int, e.2);
        lemma_sum_update(passes_of(es), i as int, e.1);
    } else {
        let e = (k, add, 1nat);
        assert(cases_of(es.insert(i as int, e)) =~= cases_of(es).insert(i as int, e.2));
        assert(passes_of(es.insert(i as int, e)) =~= passes_of(es).insert(i as int, e.1));
        lemma_sum_insert(cases_of(es), i as int, e.2);
        lemma_sum_insert(passes_of(es), i as int, e.1);
    }
}

} // verus!
