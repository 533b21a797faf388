use vstd::prelude::*;
use vstd::string::StrSliceExecFns;

verus! {

/// Character-by-character string comparison.
pub fn str_eq(a: &str, b: &str) -> (r: bool)
    ensures
        r == (a@ == b@),
{
    let la = a.unicode_len();
    let lb = b.unicode_len();
    if la != lb {
        proof {
            if a@ == b@ {
                assert(a@.len() == b@.len());
            }
        }
        return false;
    }
    let mut i: usize = 0;
    while i < la
        invariant
            a@.len() == la == lb == b@.len(),
            0 <= i <= la,
            forall|j: int| 0 <= j < i ==> a@[j] == b@[j],
        decreases la - i,
    {
        if a.get_char(i) != b.get_char(i) {
            return false;
        }
        i = i + 1;
    }
    proof {
        assert(a@ =~= b@);
    }
    true
}

/// The mapping a list of (name, value) entries stands for, the earliest entry
/// of a name taking precedence.
pub open spec fn entries_map<V>(s: Seq<(String, V)>) -> Map<Seq<char>, V>
    decreases s.len(),
{
    if s.len() == 0 {
        Map::empty()
    } else {
        entries_map(s.drop_first()).insert(s[0].0@, s[0].1)
    }
}

proof fn lemma_entries_map_found<V>(s: Seq<(String, V)>, i: int)
    requires
        0 <= i < s.len(),
        forall|j: int| 0 <= j < i ==> (#[trigger] s[j]).0@ != s[i].0@,
    ensures
        entries_map(s).contains_key(s[i].0@),
        entries_map(s)[s[i].0@] == s[i].1,
    decreases s.len(),
{
    if i > 0 {
        assert(s.drop_first()[i - 1] == s[i]);
        assert(forall|j: int| 0 <= j < i - 1 ==> (#[trigger] s.drop_first()[j]).0@ == s[j + 1].0@);
        lemma_entries_map_found(s.drop_first(), i - 1);
        assert(s[0].0@ != s[i].0@);
    }
}

proof fn lemma_entries_map_absent<V>(s: Seq<(String, V)>, k: Seq<char>)
    requires
        forall|j: int| 0 <= j < s.len() ==> (#[trigger] s[j]).0@ != k,
    ensures
        !entries_map(s).contains_key(k),
    decreases s.len(),
{
    if s.len() > 0 {
        assert(forall|j: int| 0 <= j < s.len() - 1 ==> (#[trigger] s.drop_first()[j]).0@ == s[j
            + 1].0@);
        lemma_entries_map_absent(s.drop_first(), k);
    }
}

proof fn lemma_entries_map_update<V>(s: Seq<(String, V)>, i: int, p: (String, V))
    requires
        0 <= i < s.len(),
        forall|j: int| 0 <= j < i ==> (#[trigger] s[j]).0@ != p.0@,
        s[i].0@ == p.0@,
    ensures
        entries_map(s.update(i, p)) == entries_map(s).insert(p.0@, p.1),
    decreases s.len(),
{
    let s2 = s.update(i, p);
    if i == 0 {
        assert(s2.drop_first() =~= s.drop_first());
        assert(s2[0] == p);
        assert(entries_map(s2) == entries_map(s.drop_first()).insert(p.0@, p.1));
        assert(entries_map(s.drop_first()).insert(s[0].0@, s[0].1).insert(p.0@, p.1)
            =~= entries_map(s.drop_first()).insert(p.0@, p.1));
    } else {
        assert(s2[0] == s[0]);
        assert(s2.drop_first() =~= s.drop_first().update(i - 1, p));
        assert(s.drop_first()[i - 1] == s[i]);
        assert(forall|j: int| 0 <= j < i - 1 ==> (#[trigger] s.drop_first()[j]).0@ == s[j + 1].0@);
        lemma_entries_map_update(s.drop_first(), i - 1, p);
        assert(entries_map(s.drop_first()).insert(p.0@, p.1).insert(s[0].0@, s[0].1)
            =~= entries_map(s.drop_first()).insert(s[0].0@, s[0].1).insert(p.0@, p.1)) by {
            assert(s[0].0@ != p.0@);
        }
    }
}

proof fn lemma_entries_map_push<V>(s: Seq<(String, V)>, p: (String, V))
    requires
        forall|j: int| 0 <= j < s.len() ==> (#[trigger] s[j]).0@ != p.0@,
    ensures
        entries_map(s.push(p)) == entries_map(s).insert(p.0@, p.1),
    decreases s.len(),
{
    if s.len() == 0 {
        assert(s.push(p).drop_first() =~= s);
        assert(s.push(p)[0] == p);
    } else {
        assert(s.push(p)[0] == s[0]);
        assert(s.push(p).drop_first() =~= s.drop_first().push(p));
        assert(forall|j: int| 0 <= j < s.len() - 1 ==> (#[trigger] s.drop_first()[j]).0@ == s[j
            + 1].0@);
        lemma_entries_map_push(s.drop_first(), p);
        assert(entries_map(s.drop_first()).insert(p.0@, p.1).insert(s[0].0@, s[0].1)
            =~= entries_map(s.drop_first()).insert(s[0].0@, s[0].1).insert(p.0@, p.1)) by {
            assert(s[0].0@ != p.0@);
        }
    }
}

/// A caller-owned table binding names to values, consulted at evaluation time
/// only: variable tables bind scalar values, function tables bind unary
/// functions. Lookups are by exact name; binding a name again replaces its
/// value.
pub struct Bindings<V> {
    entries: Vec<(String, V)>,
}

impl<V> Bindings<V> {
    /// An empty table.
    pub fn new() -> (r: Self)
        ensures
            r@ == Map::<Seq<char>, V>::empty(),
    {
        Bindings { entries: Vec::new() }
    }

    /// Binds `name` to `value`, replacing any earlier binding of the name.
    pub fn insert(&mut self, name: &str, value: V)
        ensures
            final(self)@ == old(self)@.insert(name@, value),
    {
        let n = self.entries.len();
        let mut i: usize = 0;
        while i < n
            invariant
                0 <= i <= n == self.entries@.len(),
                self == old(self),
                forall|j: int| 0 <= j < i ==> (#[trigger] self.entries@[j]).0@ != name@,
            decreases n - i,
        {
            if str_eq(self.entries[i].0.as_str(), name) {
                let ghost s = self.entries@;
                let ghost p = (self.entries@[i as int].0, value);
                self.entries[i].1 = value;
                proof {
                    assert(self.entries@ =~= s.update(i as int, p));
                    lemma_entries_map_update(s, i as int, p);
                }
                return ;
            }
            i = i + 1;
        }
        let ghost s = self.entries@;
        let owned = name.to_owned();
        let ghost p = (owned, value);
        self.entries.push((owned, value));
        proof {
            assert(self.entries@ =~= s.push(p));
            lemma_entries_map_push(s, p);
        }
    }

    /// Looks `name` up: the value bound to it, or `None` if the table does
    /// not bind it.
    pub fn get(&self, name: &str) -> (r: Option<&V>)
        ensures
            (match r {
                Some(v) => self@.contains_key(name@) && *v == self@[name@],
                None => !self@.contains_key(name@),
            }),
    {
        let n = self.entries.len();
        let mut i: usize = 0;
        while i < n
            invariant
                0 <= i <= n == self.entries@.len(),
                forall|j: int| 0 <= j < i ==> (#[trigger] self.entries@[j]).0@ != name@,
            decreases n - i,
        {
            if str_eq(self.entries[i].0.as_str(), name) {
                proof {
                    lemma_entries_map_found(self.entries@, i as int);
                }
                return Some(&self.entries[i].1);
            }
            i = i + 1;
        }
        proof {
            lemma_entries_map_absent(self.entries@, name@);
        }
        None
    }
}

impl<V> View for Bindings<V> {
    type V = Map<Seq<char>, V>;

    closed spec fn view(&self) -> Map<Seq<char>, V> {
        entries_map(self.entries@)
    }
}

} // verus!
