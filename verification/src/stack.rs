use vstd::prelude::*;

use crate::lexspec::{kw_false, kw_true};
use crate::numfmt::{dec_i, i64_to_dec};

verus! {

/// A variable's value: exactly one of the four supported types.
#[derive(Clone, Debug)]
pub enum Value {
    VBool(bool),
    VStr(Vec<u8>),
    VInt(i32),
    VInt64(i64),
}

/// A value as the specification sees it.
pub enum SVal {
    SBool(bool),
    SStr(Seq<u8>),
    SInt(i32),
    SInt64(i64),
}

pub open spec fn val_view(v: Value) -> SVal {
    match v {
        Value::VBool(b) => SVal::SBool(b),
        Value::VStr(s) => SVal::SStr(s@),
        Value::VInt(x) => SVal::SInt(x),
        Value::VInt64(x) => SVal::SInt64(x),
    }
}

/// How a value is rendered by the output statement: strings verbatim,
/// integers in decimal, booleans as the literal words.
pub open spec fn render_sval(v: SVal) -> Seq<u8> {
    match v {
        SVal::SStr(s) => s,
        SVal::SInt(x) => dec_i(x as int),
        SVal::SInt64(x) => dec_i(x as int),
        SVal::SBool(b) => if b {
            kw_true()
        } else {
            kw_false()
        },
    }
}

/// The mapping an association list denotes, later entries winning.
pub open spec fn map_of(s: Seq<(Vec<u8>, Value)>) -> Map<Seq<u8>, SVal>
    decreases s.len(),
{
    if s.len() == 0 {
        Map::empty()
    } else {
        map_of(s.drop_last()).insert(s.last().0@, val_view(s.last().1))
    }
}

pub proof fn lemma_map_of_contains(s: Seq<(Vec<u8>, Value)>, k: Seq<u8>)
    ensures
        map_of(s).contains_key(k) <==> exists|i: int| 0 <= i < s.len() && #[trigger] s[i].0@ == k,
    decreases s.len(),
{
    if s.len() > 0 {
        lemma_map_of_contains(s.drop_last(), k);
        if s.last().0@ == k {
            assert(s[s.len() - 1].0@ == k);
        } else {
            if map_of(s).contains_key(k) {
                let i = choose|i: int| 0 <= i < s.drop_last().len() && #[trigger] s.drop_last()[i].0@
                    == k;
                assert(s[i].0@ == k);
            }
            if exists|i: int| 0 <= i < s.len() && #[trigger] s[i].0@ == k {
                let i = choose|i: int| 0 <= i < s.len() && #[trigger] s[i].0@ == k;
                assert(i < s.len() - 1);
                assert(s.drop_last()[i].0@ == k);
            }
        }
    }
}

/// With distinct keys, each entry is the one its key maps to.
pub proof fn lemma_map_of_index(s: Seq<(Vec<u8>, Value)>, i: int)
    requires
        0 <= i < s.len(),
        forall|x: int, y: int|
            0 <= x < y < s.len() ==> #[trigger] s[x].0@ != #[trigger] s[y].0@,
    ensures
        map_of(s).contains_key(s[i].0@),
        map_of(s)[s[i].0@] == val_view(s[i].1),
    decreases s.len(),
{
    lemma_map_of_contains(s, s[i].0@);
    if i == s.len() - 1 {
    } else {
        assert(forall|x: int, y: int|
            0 <= x < y < s.drop_last().len() ==> #[trigger] s.drop_last()[x].0@
                != #[trigger] s.drop_last()[y].0@);
        lemma_map_of_index(s.drop_last(), i);
        assert(s.drop_last()[i].0@ == s[i].0@);
        assert(s[i].0@ != s[s.len() - 1].0@);
    }
}

/// Replacing the entry at a key rewrites just that key's image.
pub proof fn lemma_map_of_update(s: Seq<(Vec<u8>, Value)>, i: int, name: Vec<u8>, v: Value)
    requires
        0 <= i < s.len(),
        name@ == s[i].0@,
        forall|x: int, y: int|
            0 <= x < y < s.len() ==> #[trigger] s[x].0@ != #[trigger] s[y].0@,
    ensures
        map_of(s.update(i, (name, v))) == map_of(s).insert(name@, val_view(v)),
    decreases s.len(),
{
    let s2 = s.update(i, (name, v));
    if i == s.len() - 1 {
        assert(s2.drop_last() =~= s.drop_last());
        assert(map_of(s2) == map_of(s.drop_last()).insert(name@, val_view(v)));
        assert(map_of(s).insert(name@, val_view(v)) =~= map_of(s.drop_last()).insert(
            name@,
            val_view(v),
        ));
    } else {
        assert(forall|x: int, y: int|
            0 <= x < y < s.drop_last().len() ==> #[trigger] s.drop_last()[x].0@
                != #[trigger] s.drop_last()[y].0@);
        lemma_map_of_update(s.drop_last(), i, name, v);
        assert(s2.drop_last() =~= s.drop_last().update(i, (name, v)));
        assert(s2.last() == s.last());
        assert(map_of(s2) == map_of(s.drop_last()).insert(name@, val_view(v)).insert(
            s.last().0@,
            val_view(s.last().1),
        ));
        assert(s[i].0@ != s.last().0@);
        assert(map_of(s.drop_last()).insert(name@, val_view(v)).insert(
            s.last().0@,
            val_view(s.last().1),
        ) =~= map_of(s.drop_last()).insert(s.last().0@, val_view(s.last().1)).insert(
            name@,
            val_view(v),
        ));
    }
}

/// Compares two byte slices.
pub fn bytes_eq(a: &[u8], b: &[u8]) -> (r: bool)
    ensures
        r == (a@ == b@),
{
    if a.len() != b.len() {
        proof {
            assert(a@.len() != b@.len());
        }
        return false;
    }
    let n: usize = a.len();
    let mut i: usize = 0;
    while i < n
        invariant
            n == a@.len() == b@.len(),
            0 <= i <= n,
            forall|j: int| 0 <= j < i ==> a@[j] == b@[j],
        decreases n - i,
    {
        if a[i] != b[i] {
            return false;
        }
        i = i + 1;
    }
    proof {
        assert(a@ =~= b@);
    }
    true
}

/// The typed variable store: one entry per declared name, the entry's
/// variant fixing the variable's type. Keeping a single mapping makes
/// "at most one type per name" structural rather than conventional.
pub struct Stack {
    pub entries: Vec<(Vec<u8>, Value)>,
}

impl Stack {
    /// Well-formedness: declared names are distinct.
    pub open spec fn wf(self) -> bool {
        forall|x: int, y: int|
            0 <= x < y < self.entries@.len() ==> #[trigger] self.entries@[x].0@
                != #[trigger] self.entries@[y].0@
    }

    /// The mapping from names to values that the store denotes.
    pub open spec fn smap(self) -> Map<Seq<u8>, SVal> {
        map_of(self.entries@)
    }

    /// An empty store.
    pub fn new() -> (r: Stack)
        ensures
            r.wf(),
            r.smap() == Map::<Seq<u8>, SVal>::empty(),
    {
        Stack { entries: Vec::new() }
    }

    /// The index of a name's entry, when the name is declared.
    fn find(&self, key: &Vec<u8>) -> (r: Option<usize>)
        requires
            self.wf(),
        ensures
            match r {
                Some(i) => i < self.entries@.len() && self.entries@[i as int].0@ == key@
                    && self.smap().contains_key(key@) && self.smap()[key@] == val_view(
                    self.entries@[i as int].1,
                ),
                None => !self.smap().contains_key(key@),
            },
    {
        let n: usize = self.entries.len();
        let mut i: usize = 0;
        while i < n
            invariant
                self.wf(),
                n == self.entries@.len(),
                0 <= i <= n,
                forall|j: int| 0 <= j < i ==> #[trigger] self.entries@[j].0@ != key@,
            decreases n - i,
        {
            if bytes_eq(self.entries[i].0.as_slice(), key.as_slice()) {
                proof {
                    lemma_map_of_index(self.entries@, i as int);
                }
                return Some(i);
            }
            i = i + 1;
        }
        proof {
            lemma_map_of_contains(self.entries@, key@);
        }
        None
    }

    /// Whether the name is declared, in any of the typed mappings.
    pub fn defined(&self, key: &Vec<u8>) -> (r: bool)
        requires
            self.wf(),
        ensures
            r == self.smap().contains_key(key@),
    {
        self.find(key).is_some()
    }

    /// The name's boolean value, when it is declared as a boolean.
    pub fn get_from_bool_map(&self, key: &Vec<u8>) -> (r: Option<bool>)
        requires
            self.wf(),
        ensures
            match r {
                Some(v) => self.smap().contains_key(key@) && self.smap()[key@] == SVal::SBool(v),
                None => !(self.smap().contains_key(key@) && self.smap()[key@] is SBool),
            },
    {
        match self.find(key) {
            Some(i) => match &self.entries[i].1 {
                Value::VBool(b) => Some(*b),
                _ => None,
            },
            None => None,
        }
    }

    /// The name's 32-bit value, when it is declared as one.
    pub fn get_from_int_map(&self, key: &Vec<u8>) -> (r: Option<i32>)
        requires
            self.wf(),
        ensures
            match r {
                Some(v) => self.smap().contains_key(key@) && self.smap()[key@] == SVal::SInt(v),
                None => !(self.smap().contains_key(key@) && self.smap()[key@] is SInt),
            },
    {
        match self.find(key) {
            Some(i) => match &self.entries[i].1 {
                Value::VInt(v) => Some(*v),
                _ => None,
            },
            None => None,
        }
    }

    /// The name's 64-bit value, when it is declared as one.
    pub fn get_from_int_map_64(&self, key: &Vec<u8>) -> (r: Option<i64>)
        requires
            self.wf(),
        ensures
            match r {
                Some(v) => self.smap().contains_key(key@) && self.smap()[key@] == SVal::SInt64(v),
                None => !(self.smap().contains_key(key@) && self.smap()[key@] is SInt64),
            },
    {
        match self.find(key) {
            Some(i) => match &self.entries[i].1 {
                Value::VInt64(v) => Some(*v),
                _ => None,
            },
            None => None,
        }
    }

    /// The name's string value, when it is declared as a string.
    pub fn get_from_str_map(&self, key: &Vec<u8>) -> (r: Option<Vec<u8>>)
        requires
            self.wf(),
        ensures
            match r {
                Some(v) => self.smap().contains_key(key@) && self.smap()[key@] == SVal::SStr(v@),
                None => !(self.smap().contains_key(key@) && self.smap()[key@] is SStr),
            },
    {
        match self.find(key) {
            Some(i) => match &self.entries[i].1 {
                Value::VStr(v) => Some(v.clone()),
                _ => None,
            },
            None => None,
        }
    }

    /// Binds the name to the given value, creating or overwriting its
    /// entry.
    fn push_value(&mut self, key: &Vec<u8>, value: Value)
        requires
            old(self).wf(),
        ensures
            final(self).wf(),
            final(self).smap() == old(self).smap().insert(key@, val_view(value)),
    {
        let ghost v0 = value;
        match self.find(key) {
            Some(i) => {
                let k2: Vec<u8> = key.clone();
                proof {
                    lemma_map_of_update(self.entries@, i as int, k2, v0);
                }
                self.entries.set(i, (k2, value));
                proof {
                    assert(forall|x: int, y: int|
                        0 <= x < y < self.entries@.len() ==> #[trigger] self.entries@[x].0@
                            != #[trigger] self.entries@[y].0@);
                }
            },
            None => {
                let k2: Vec<u8> = key.clone();
                proof {
                    lemma_map_of_contains(self.entries@, key@);
                }
                self.entries.push((k2, value));
                proof {
                    assert(self.entries@.drop_last() =~= old(self).entries@);
                    assert(forall|j: int|
                        0 <= j < old(self).entries@.len() ==> #[trigger] old(
                            self,
                        ).entries@[j].0@ != key@) by {
                        if exists|j: int|
                            0 <= j < old(self).entries@.len() && #[trigger] old(
                                self,
                            ).entries@[j].0@ == key@ {
                            lemma_map_of_contains(old(self).entries@, key@);
                        }
                    }
                }
            },
        }
    }

    /// Binds the name to a string value.
    pub fn push_str_map(&mut self, key: &Vec<u8>, value: Vec<u8>)
        requires
            old(self).wf(),
        ensures
            final(self).wf(),
            final(self).smap() == old(self).smap().insert(key@, SVal::SStr(value@)),
    {
        self.push_value(key, Value::VStr(value));
    }

    /// Binds the name to a boolean value.
    pub fn push_bool_map(&mut self, key: &Vec<u8>, value: bool)
        requires
            old(self).wf(),
        ensures
            final(self).wf(),
            final(self).smap() == old(self).smap().insert(key@, SVal::SBool(value)),
    {
        self.push_value(key, Value::VBool(value));
    }

    /// Binds the name to a 32-bit integer value.
    pub fn push_int_map(&mut self, key: &Vec<u8>, value: i32)
        requires
            old(self).wf(),
        ensures
            final(self).wf(),
            final(self).smap() == old(self).smap().insert(key@, SVal::SInt(value)),
    {
        self.push_value(key, Value::VInt(value));
    }

    /// Binds the name to a 64-bit integer value.
    pub fn push_int_map_64(&mut self, key: &Vec<u8>, value: i64)
        requires
            old(self).wf(),
        ensures
            final(self).wf(),
            final(self).smap() == old(self).smap().insert(key@, SVal::SInt64(value)),
    {
        self.push_value(key, Value::VInt64(value));
    }

    /// The name's numeric value widened to 64 bits, when it is declared
    /// under either integer type.
    pub fn get_int(&self, key: &Vec<u8>) -> (r: Option<i64>)
        requires
            self.wf(),
        ensures
            match r {
                Some(v) => self.smap().contains_key(key@) && match self.smap()[key@] {
                    SVal::SInt(x) => v == x as i64,
                    SVal::SInt64(x) => v == x,
                    _ => false,
                },
                None => !(self.smap().contains_key(key@) && (self.smap()[key@] is SInt
                    || self.smap()[key@] is SInt64)),
            },
    {
        match self.find(key) {
            Some(i) => match &self.entries[i].1 {
                Value::VInt(v) => Some(*v as i64),
                Value::VInt64(v) => Some(*v),
                _ => None,
            },
            None => None,
        }
    }

    /// The rendering of the name's value, if the name is declared in
    /// any mapping: strings verbatim, integers in decimal, booleans as
    /// the literal words for true and false.
    pub fn print_variable(&self, key: &Vec<u8>) -> (r: Option<Vec<u8>>)
        requires
            self.wf(),
        ensures
            match r {
                Some(v) => self.smap().contains_key(key@) && v@ == render_sval(
                    self.smap()[key@],
                ),
                None => !self.smap().contains_key(key@),
            },
    {
        match self.find(key) {
            Some(i) => match &self.entries[i].1 {
                Value::VStr(v) => Some(v.clone()),
                Value::VInt(v) => Some(i64_to_dec(*v as i64)),
                Value::VInt64(v) => Some(i64_to_dec(*v)),
                Value::VBool(b) => {
                    let mut w: Vec<u8> = Vec::new();
                    if *b {
                        w.push(84);
                        w.push(114);
                        w.push(117);
                        w.push(101);
                        proof {
                            assert(w@ =~= kw_true());
                        }
                    } else {
                        w.push(70);
                        w.push(97);
                        w.push(108);
                        w.push(115);
                        w.push(101);
                        proof {
                            assert(w@ =~= kw_false());
                        }
                    }
                    Some(w)
                },
            },
            None => None,
        }
    }
}

} // verus!
