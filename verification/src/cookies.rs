//! The session-cookie set: a collection of `name=value` pairs with unique
//! names. Only the two recognized session-identifying names are ever placed
//! on an outgoing `Cookie` header; everything else is stored but never
//! transmitted.

use vstd::prelude::*;
use vstd::string::*;

use crate::utils::str_eq;

verus! {

/// A set of cookies, viewed as a sequence of `(name, value)` pairs whose
/// names are pairwise distinct.
#[derive(Debug)]
pub struct CookieSet {
    entries: Vec<(String, String)>,
}

/// Index of the first entry named `n` in `es`, or -1 if there is none.
pub open spec fn first_entry_index(es: Seq<(Seq<char>, Seq<char>)>, n: Seq<char>) -> int
    decreases es.len(),
{
    if es.len() == 0 {
        -1
    } else if es[0].0 == n {
        0
    } else {
        let r = first_entry_index(es.drop_first(), n);
        if r == -1 {
            -1
        } else {
            r + 1
        }
    }
}

pub proof fn lemma_first_entry_index(es: Seq<(Seq<char>, Seq<char>)>, n: Seq<char>)
    ensures
        first_entry_index(es, n) == -1 ==> forall|j: int| 0 <= j < es.len() ==> es[j].0 != n,
        first_entry_index(es, n) != -1 ==> {
            let i = first_entry_index(es, n);
            &&& 0 <= i < es.len()
            &&& es[i].0 == n
            &&& forall|j: int| 0 <= j < i ==> es[j].0 != n
        },
    decreases es.len(),
{
    if es.len() > 0 && es[0].0 != n {
        let t = es.drop_first();
        lemma_first_entry_index(t, n);
        if first_entry_index(t, n) == -1 {
            assert forall|j: int| 0 <= j < es.len() implies es[j].0 != n by {
                if j > 0 {
                    assert(t[j - 1].0 != n);
                }
            }
        } else {
            let i = first_entry_index(t, n);
            assert(es[i + 1] == t[i]);
            assert forall|j: int| 0 <= j < i + 1 implies es[j].0 != n by {
                if j > 0 {
                    assert(t[j - 1].0 != n);
                }
            }
        }
    }
}

pub proof fn lemma_first_entry_index_unique(
    es: Seq<(Seq<char>, Seq<char>)>,
    n: Seq<char>,
    i: int,
)
    requires
        0 <= i < es.len(),
        es[i].0 == n,
        forall|j: int| 0 <= j < i ==> es[j].0 != n,
    ensures
        first_entry_index(es, n) == i,
    decreases es.len(),
{
    if i > 0 {
        let t = es.drop_first();
        assert(t[i - 1] == es[i]);
        assert forall|j: int| 0 <= j < i - 1 implies t[j].0 != n by {
            assert(t[j] == es[j + 1]);
        }
        lemma_first_entry_index_unique(t, n, i - 1);
    }
}

pub proof fn lemma_first_entry_index_none(es: Seq<(Seq<char>, Seq<char>)>, n: Seq<char>)
    requires
        forall|j: int| 0 <= j < es.len() ==> es[j].0 != n,
    ensures
        first_entry_index(es, n) == -1,
    decreases es.len(),
{
    if es.len() > 0 {
        let t = es.drop_first();
        assert forall|j: int| 0 <= j < t.len() implies t[j].0 != n by {
            assert(t[j] == es[j + 1]);
        }
        lemma_first_entry_index_none(t, n);
    }
}

/// Cookie names are pairwise distinct.
pub open spec fn names_distinct(es: Seq<(Seq<char>, Seq<char>)>) -> bool {
    forall|i: int, j: int| 0 <= i < j < es.len() ==> es[i].0 != es[j].0
}

/// Storing a pair keeps the names pairwise distinct.
pub proof fn lemma_insert_entry_distinct(
    es: Seq<(Seq<char>, Seq<char>)>,
    n: Seq<char>,
    v: Seq<char>,
)
    requires
        names_distinct(es),
    ensures
        names_distinct(insert_entry(es, n, v)),
{
    lemma_first_entry_index(es, n);
    let i = first_entry_index(es, n);
    let ns = insert_entry(es, n, v);
    let base = if i == -1 {
        es
    } else {
        es.remove(i)
    };
    assert forall|a: int| 0 <= a < base.len() implies base[a].0 != n by {
        if i == -1 {
            assert(es[a].0 != n);
        } else {
            if a < i {
                assert(base[a] == es[a]);
            } else {
                assert(base[a] == es[a + 1]);
            }
        }
    }
    assert forall|a: int, b: int| 0 <= a < b < ns.len() implies ns[a].0 != ns[b].0 by {
        if b < ns.len() - 1 {
            if i != -1 {
                let a0 = if a < i {
                    a
                } else {
                    a + 1
                };
                let b0 = if b < i {
                    b
                } else {
                    b + 1
                };
                assert(base[a] == es[a0]);
                assert(base[b] == es[b0]);
            }
        }
    }
}

/// The effect of storing a pair: an entry with the same name is dropped,
/// and the new pair goes to the back.
pub open spec fn insert_entry(
    es: Seq<(Seq<char>, Seq<char>)>,
    n: Seq<char>,
    v: Seq<char>,
) -> Seq<(Seq<char>, Seq<char>)> {
    let i = first_entry_index(es, n);
    if i == -1 {
        es.push((n, v))
    } else {
        es.remove(i).push((n, v))
    }
}

/// The value stored under `n`, if any.
pub open spec fn value_of(es: Seq<(Seq<char>, Seq<char>)>, n: Seq<char>) -> Option<Seq<char>> {
    let i = first_entry_index(es, n);
    if i == -1 {
        None
    } else {
        Some(es[i].1)
    }
}

impl View for CookieSet {
    type V = Seq<(Seq<char>, Seq<char>)>;

    closed spec fn view(&self) -> Seq<(Seq<char>, Seq<char>)> {
        Seq::new(self.entries@.len(), |i: int| (self.entries@[i].0@, self.entries@[i].1@))
    }
}

impl CookieSet {
    /// Well-formedness: cookie names are pairwise distinct.
    pub open spec fn wf(&self) -> bool {
        names_distinct(self@)
    }

    /// The empty cookie set.
    pub fn new() -> (r: CookieSet)
        ensures
            r@ =~= Seq::<(Seq<char>, Seq<char>)>::empty(),
            r.wf(),
    {
        let r = CookieSet { entries: Vec::new() };
        proof {
            assert(r@ =~= Seq::<(Seq<char>, Seq<char>)>::empty());
        }
        r
    }

    /// How many cookies are stored.
    pub fn len(&self) -> (r: usize)
        ensures
            r == self@.len(),
    {
        self.entries.len()
    }

    /// Index of the first entry named `name`, scanning from the front.
    fn find_name(&self, name: &str) -> (r: Option<usize>)
        ensures
            match r {
                Some(i) => first_entry_index(self@, name@) == i && i < self@.len(),
                None => first_entry_index(self@, name@) == -1,
            },
    {
        let mut j: usize = 0;
        let n = self.entries.len();
        while j < n
            invariant
                0 <= j <= n,
                n == self.entries@.len(),
                forall|t: int| 0 <= t < j ==> self@[t].0 != name@,
            decreases n - j,
        {
            if str_eq(self.entries[j].0.as_str(), name) {
                proof {
                    assert(self@[j as int].0 == self.entries@[j as int].0@);
                    lemma_first_entry_index_unique(self@, name@, j as int);
                }
                return Some(j);
            }
            j = j + 1;
        }
        proof {
            lemma_first_entry_index_none(self@, name@);
        }
        None
    }

    /// Store `value` under `name`, replacing any entry of the same name.
    pub fn insert(&mut self, name: String, value: String)
        ensures
            final(self)@ == insert_entry(old(self)@, name@, value@),
            old(self).wf() ==> final(self).wf(),
    {
        let ghost es = self@;
        match self.find_name(name.as_str()) {
            Some(i) => {
                self.entries.remove(i);
                proof {
                    assert(self@ =~~= es.remove(i as int));
                }
            },
            None => {},
        }
        let ghost mid = self@;
        self.entries.push((name, value));
        proof {
            assert(self@ =~~= mid.push((name@, value@)));
            if old(self).wf() {
                lemma_insert_entry_distinct(es, name@, value@);
            }
        }
    }

    /// Look up the value stored under `name`.
    pub fn get(&self, name: &str) -> (r: Option<&String>)
        ensures
            match r {
                Some(v) => value_of(self@, name@) == Some(v@),
                None => value_of(self@, name@) is None,
            },
    {
        match self.find_name(name) {
            Some(i) => Some(&self.entries[i].1),
            None => None,
        }
    }

    /// An independent copy: the snapshot a reader receives.
    pub fn duplicate(&self) -> (r: CookieSet)
        ensures
            r@ == self@,
    {
        let mut entries: Vec<(String, String)> = Vec::new();
        let n = self.entries.len();
        let mut j: usize = 0;
        while j < n
            invariant
                0 <= j <= n,
                n == self.entries@.len(),
                entries@.len() == j,
                forall|t: int|
                    0 <= t < j ==> (#[trigger] entries@[t]).0@ == self@[t].0 && entries@[t].1@
                        == self@[t].1,
            decreases n - j,
        {
            let name = self.entries[j].0.clone();
            let value = self.entries[j].1.clone();
            entries.push((name, value));
            j = j + 1;
        }
        let r = CookieSet { entries };
        proof {
            assert(r@ =~~= self@);
        }
        r
    }

    /// The `Cookie` header line for an outgoing request: only the recognized
    /// session names are transmitted, joined as `name=value` pairs separated
    /// by `"; "`.
    pub fn cookie_header(&self) -> (r: String)
        ensures
            r@ == header_of(self@),
    {
        let mut out = String::new();
        let n = self.entries.len();
        let mut j: usize = 0;
        while j < n
            invariant
                0 <= j <= n,
                n == self.entries@.len(),
                out@ == header_of(self@.take(j as int)),
            decreases n - j,
        {
            proof {
                assert(self@.take(j + 1).drop_last() =~= self@.take(j as int));
                assert(self@.take(j + 1).last() == self@[j as int]);
            }
            if is_recognized(self.entries[j].0.as_str()) {
                if !out.as_str().is_empty() {
                    out.append("; ");
                }
                out.append(self.entries[j].0.as_str());
                out.append("=");
                out.append(self.entries[j].1.as_str());
                proof {
                    assert(out@ =~= header_of(self@.take(j + 1)));
                }
            }
            j = j + 1;
        }
        proof {
            assert(self@.take(n as int) =~= self@);
        }
        out
    }
}

/// Whether a cookie name is one of the session-identifying names that are
/// forwarded on outgoing requests.
pub open spec fn recognized_name(n: Seq<char>) -> bool {
    n == "KP_UIDz"@ || n == "KP_UIDz-ssn"@
}

/// Executable test for `recognized_name`.
pub fn is_recognized(name: &str) -> (r: bool)
    ensures
        r == recognized_name(name@),
{
    str_eq(name, "KP_UIDz") || str_eq(name, "KP_UIDz-ssn")
}

/// One transmitted pair, written `name=value`.
pub open spec fn pair_str(e: (Seq<char>, Seq<char>)) -> Seq<char> {
    e.0 + "="@ + e.1
}

/// The `Cookie` header for the entries `es`: the recognized pairs in order,
/// separated by `"; "`.
pub open spec fn header_of(es: Seq<(Seq<char>, Seq<char>)>) -> Seq<char>
    decreases es.len(),
{
    if es.len() == 0 {
        Seq::empty()
    } else {
        let rest = header_of(es.drop_last());
        let e = es.last();
        if !recognized_name(e.0) {
            rest
        } else if rest.len() == 0 {
            pair_str(e)
        } else {
            rest + "; "@ + pair_str(e)
        }
    }
}

/// The transmitted header depends only on the recognized entries: cookies
/// stored under any other name never reach the wire.
pub proof fn lemma_header_only_recognized(es: Seq<(Seq<char>, Seq<char>)>)
    ensures
        header_of(es) == header_of(es.filter(|e: (Seq<char>, Seq<char>)| recognized_name(e.0))),
    decreases es.len(),
{
    reveal(Seq::filter);
    let p = |e: (Seq<char>, Seq<char>)| recognized_name(e.0);
    if es.len() == 0 {
        assert(es.filter(p) =~= es);
    } else {
        let t = es.drop_last();
        let e = es.last();
        lemma_header_only_recognized(t);
        assert(header_of(t) == header_of(t.filter(p)));
        if p(e) {
            assert(es.filter(p) == t.filter(p).push(e));
            assert(es.filter(p).drop_last() =~= t.filter(p));
            assert(es.filter(p).last() == e);
        } else {
            assert(es.filter(p) == t.filter(p));
            assert(header_of(es) == header_of(t));
        }
    }
}

} // verus!

