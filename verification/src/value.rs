//! The value tree that a parse produces, and its mathematical model.

use vstd::prelude::*;
use vstd::std_specs::cmp::PartialEqSpecImpl;

verus! {

/// A numeric literal, kept as four distinct cases so that the special values
/// never pass through floating-point semantics.
#[derive(Debug)]
pub enum HumlNumber {
    /// A 64-bit signed integer.
    Integer(i64),
    /// A decimal literal with a fraction or an exponent, as its text: the
    /// normalized literal (sign, digits, `.`, exponent; no `_`). A parse gives
    /// only literals of finite 64-bit floating-point numbers, and only such
    /// literals are written; a text of another form is refused on writing. The
    /// library holds no floating-point number; whoever needs the number reads
    /// the literal.
    Float(String),
    /// Not a number.
    Nan,
    /// Infinity; `true` is positive.
    Infinity(bool),
}

/// A parsed value.
#[derive(Debug)]
pub enum HumlValue {
    String(String),
    Number(HumlNumber),
    Boolean(bool),
    Null,
    List(Vec<HumlValue>),
    Dict(HumlDict),
}

/// A mapping from key text to value. Keys are unique.
#[derive(Debug)]
pub struct HumlDict {
    entries: Vec<(String, HumlValue)>,
}

/// A parsed document: an optional version and the root value.
#[derive(Debug)]
pub struct HumlDocument {
    pub version: Option<String>,
    pub root: HumlValue,
}

/// Model of a [`HumlNumber`].
pub enum NumberModel {
    Integer(int),
    Float(Seq<char>),
    Nan,
    Infinity(bool),
}

/// Model of a [`HumlValue`]: text is a sequence of characters, a list a
/// sequence, a dict a finite map.
pub enum ValueModel {
    String(Seq<char>),
    Number(NumberModel),
    Boolean(bool),
    Null,
    List(Seq<ValueModel>),
    Dict(Map<Seq<char>, ValueModel>),
}

/// Model of a [`HumlDocument`].
pub struct DocumentModel {
    pub version: Option<Seq<char>>,
    pub root: ValueModel,
}

/// A value with the entries of each dict in the order in which it holds them:
/// what its text form is made from.
pub enum Tree {
    Text(Seq<char>),
    Number(NumberModel),
    Boolean(bool),
    Null,
    List(Seq<Tree>),
    Dict(Seq<(Seq<char>, Tree)>),
}

/// The map that a sequence of entries stands for; of two entries with one key
/// the later one counts.
pub open spec fn entries_map(e: Seq<(Seq<char>, ValueModel)>) -> Map<Seq<char>, ValueModel>
    decreases e.len(),
{
    if e.len() == 0 {
        Map::empty()
    } else {
        entries_map(e.drop_last()).insert(e.last().0, e.last().1)
    }
}

/// Whether no key occurs twice.
pub open spec fn keys_distinct(e: Seq<(Seq<char>, ValueModel)>) -> bool {
    forall|i: int, j: int| 0 <= i < j < e.len() ==> e[i].0 != e[j].0
}

/// A key that no entry has is no key of the map.
pub proof fn lemma_entries_absent(e: Seq<(Seq<char>, ValueModel)>, k: Seq<char>)
    requires
        forall|j: int| 0 <= j < e.len() ==> e[j].0 != k,
    ensures
        !entries_map(e).contains_key(k),
    decreases e.len(),
{
    if e.len() > 0 {
        lemma_entries_absent(e.drop_last(), k);
    }
}

/// The map holds, under the key of an entry that no later entry shares, the
/// value of that entry.
pub proof fn lemma_entries_lookup(e: Seq<(Seq<char>, ValueModel)>, i: int)
    requires
        0 <= i < e.len(),
        forall|j: int| i < j < e.len() ==> e[j].0 != e[i].0,
    ensures
        entries_map(e).contains_key(e[i].0),
        entries_map(e)[e[i].0] == e[i].1,
    decreases e.len(),
{
    if i < e.len() - 1 {
        lemma_entries_lookup(e.drop_last(), i);
    }
}

/// Replacing the value of an entry puts the new value under its key.
pub proof fn lemma_entries_update(
    e: Seq<(Seq<char>, ValueModel)>,
    i: int,
    v: ValueModel,
)
    requires
        0 <= i < e.len(),
        keys_distinct(e),
    ensures
        entries_map(e.update(i, (e[i].0, v))) == entries_map(e).insert(e[i].0, v),
    decreases e.len(),
{
    let u = e.update(i, (e[i].0, v));
    if i == e.len() - 1 {
        assert(u.drop_last() =~= e.drop_last());
        assert(entries_map(u) =~= entries_map(e).insert(e[i].0, v));
    } else {
        lemma_entries_update(e.drop_last(), i, v);
        assert(u.drop_last() =~= e.drop_last().update(i, (e[i].0, v)));
        assert(entries_map(u) =~= entries_map(e).insert(e[i].0, v));
    }
}

/// The map of some entries is finite; where their keys are distinct, it has
/// as many keys as there are entries.
pub proof fn lemma_entries_dom_finite(e: Seq<(Seq<char>, ValueModel)>)
    ensures
        entries_map(e).dom().finite(),
        keys_distinct(e) ==> entries_map(e).dom().len() == e.len(),
    decreases e.len(),
{
    if e.len() > 0 {
        lemma_entries_dom_finite(e.drop_last());
        if keys_distinct(e) {
            lemma_entries_absent(e.drop_last(), e.last().0);
        }
    }
}

impl View for HumlNumber {
    type V = NumberModel;

    open spec fn view(&self) -> NumberModel {
        match self {
            HumlNumber::Integer(i) => NumberModel::Integer(*i as int),
            HumlNumber::Float(s) => NumberModel::Float(s@),
            HumlNumber::Nan => NumberModel::Nan,
            HumlNumber::Infinity(p) => NumberModel::Infinity(*p),
        }
    }
}

/// The model of a value.
pub closed spec fn value_model(v: &HumlValue) -> ValueModel
    decreases v, 0nat,
{
    match v {
        HumlValue::String(s) => ValueModel::String(s@),
        HumlValue::Number(n) => ValueModel::Number(n@),
        HumlValue::Boolean(b) => ValueModel::Boolean(*b),
        HumlValue::Null => ValueModel::Null,
        HumlValue::List(items) => ValueModel::List(
            Seq::new(
                items.len() as nat,
                |i: int|
                    if 0 <= i < items.len() {
                        value_model(&items[i])
                    } else {
                        ValueModel::Null
                    },
            ),
        ),
        HumlValue::Dict(d) => ValueModel::Dict(entries_map(d.entry_models())),
    }
}

/// The value with its entries in order.
pub closed spec fn value_tree(v: &HumlValue) -> Tree
    decreases v, 0nat,
{
    match v {
        HumlValue::String(s) => Tree::Text(s@),
        HumlValue::Number(n) => Tree::Number(n@),
        HumlValue::Boolean(b) => Tree::Boolean(*b),
        HumlValue::Null => Tree::Null,
        HumlValue::List(items) => Tree::List(
            Seq::new(
                items.len() as nat,
                |i: int|
                    if 0 <= i < items.len() {
                        value_tree(&items[i])
                    } else {
                        Tree::Null
                    },
            ),
        ),
        HumlValue::Dict(d) => Tree::Dict(d.entry_trees()),
    }
}

impl HumlValue {
    /// The value with the entries of its dicts in order.
    pub open spec fn tree(&self) -> Tree {
        value_tree(self)
    }
}

/// What the tree of each kind of value is.
pub proof fn lemma_value_tree(v: &HumlValue)
    ensures
        v matches HumlValue::String(s) ==> v.tree() == Tree::Text(s@),
        v matches HumlValue::Number(n) ==> v.tree() == Tree::Number(n@),
        v matches HumlValue::Boolean(b) ==> v.tree() == Tree::Boolean(*b),
        v is Null ==> v.tree() == Tree::Null,
        v matches HumlValue::List(items) ==> {
            &&& v.tree() matches Tree::List(trees)
            &&& trees.len() == items.len()
            &&& forall|i: int| 0 <= i < items.len() ==> #[trigger] trees[i] == items[i].tree()
        },
        v matches HumlValue::Dict(d) ==> v.tree() == Tree::Dict(d.entry_trees()),
{
}

impl View for HumlValue {
    type V = ValueModel;

    open spec fn view(&self) -> ValueModel {
        value_model(self)
    }
}

impl View for HumlDocument {
    type V = DocumentModel;

    open spec fn view(&self) -> DocumentModel {
        DocumentModel {
            version: match self.version {
                Some(v) => Some(v@),
                None => None,
            },
            root: self.root@,
        }
    }
}

/// What the model of each kind of value is.
pub broadcast proof fn lemma_value_model(v: &HumlValue)
    ensures
        #![trigger value_model(v)]
        v matches HumlValue::String(s) ==> v@ == ValueModel::String(s@),
        v matches HumlValue::Number(n) ==> v@ == ValueModel::Number(n@),
        v matches HumlValue::Boolean(b) ==> v@ == ValueModel::Boolean(*b),
        v is Null ==> v@ == ValueModel::Null,
        v matches HumlValue::List(items) ==> {
            &&& v@ matches ValueModel::List(models)
            &&& models.len() == items.len()
            &&& forall|i: int| 0 <= i < items.len() ==> #[trigger] models[i] == items[i]@
        },
        v matches HumlValue::Dict(d) ==> v@ == ValueModel::Dict(d@),
{
}

/// The models of a run of entries, in order.
pub open spec fn entry_views(entries: Seq<(String, HumlValue)>) -> Seq<(Seq<char>, ValueModel)> {
    Seq::new(entries.len(), |i: int| (entries[i].0@, entries[i].1@))
}

/// The models of a run of values, in order.
pub open spec fn models(items: Seq<HumlValue>) -> Seq<ValueModel> {
    Seq::new(items.len(), |i: int| items[i]@)
}

/// The model of a list is the list of the models of its items.
pub proof fn lemma_list_model(v: &HumlValue)
    requires
        v is List,
    ensures
        v@ == ValueModel::List(models(v->List_0@)),
{
    lemma_value_model(v);
    assert(v@->List_0 =~= models(v->List_0@));
}

impl HumlDict {
    /// The entries as pairs of models, in the order in which they are held.
    pub closed spec fn entry_models(&self) -> Seq<(Seq<char>, ValueModel)>
        decreases self, 1nat,
    {
        Seq::new(
            self.entries.len() as nat,
            |i: int|
                if 0 <= i < self.entries.len() {
                    (self.entries[i].0@, value_model(&self.entries[i].1))
                } else {
                    (Seq::empty(), ValueModel::Null)
                },
        )
    }

    /// The entries as pairs of key and tree, in the order in which they are
    /// held.
    pub closed spec fn entry_trees(&self) -> Seq<(Seq<char>, Tree)>
        decreases self, 1nat,
    {
        Seq::new(
            self.entries.len() as nat,
            |i: int|
                if 0 <= i < self.entries.len() {
                    (self.entries[i].0@, value_tree(&self.entries[i].1))
                } else {
                    (Seq::empty(), Tree::Null)
                },
        )
    }

    #[verifier::type_invariant]
    spec fn unique_keys(&self) -> bool {
        keys_distinct(self.entry_models())
    }

    /// The number of entries is the number of keys.
    pub proof fn lemma_len(&self)
        requires
            keys_distinct(self.entry_models()),
        ensures
            self@.dom().finite(),
            self@.dom().len() == self.entry_models().len(),
    {
        lemma_entries_dom_finite(self.entry_models());
    }

    /// An empty dict.
    pub fn new() -> (d: HumlDict)
        ensures
            d@ == Map::<Seq<char>, ValueModel>::empty(),
            d.entry_trees() == Seq::<(Seq<char>, Tree)>::empty(),
    {
        let entries: Vec<(String, HumlValue)> = Vec::new();
        assert((HumlDict { entries }).entry_models() =~= Seq::empty());
        assert((HumlDict { entries }).entry_trees() =~= Seq::empty());
        HumlDict { entries }
    }

    /// The number of entries.
    pub fn len(&self) -> (n: usize)
        ensures
            self@.dom().finite(),
            n == self@.dom().len(),
            n == self.entry_trees().len(),
    {
        proof {
            use_type_invariant(self);
            self.lemma_len();
        }
        self.entries.len()
    }

    /// Whether the dict has no entry.
    pub fn is_empty(&self) -> (b: bool)
        ensures
            b == (self@ == Map::<Seq<char>, ValueModel>::empty()),
    {
        proof {
            use_type_invariant(self);
            self.lemma_len();
            if self.entries.len() == 0 {
                assert(self.entry_models() =~= Seq::empty());
            } else {
                assert(self@.dom().len() > 0);
            }
        }
        self.entries.len() == 0
    }

    fn position(&self, key: &str) -> (r: Option<usize>)
        ensures
            match r {
                Some(i) => i < self.entries.len() && self.entries[i as int].0@ == key@,
                None => forall|j: int| 0 <= j < self.entries.len() ==> self.entries[j].0@ != key@,
            },
    {
        let k: String = key.to_owned();
        let mut i: usize = 0;
        while i < self.entries.len()
            invariant
                i <= self.entries.len(),
                k@ == key@,
                forall|j: int| 0 <= j < i ==> self.entries[j].0@ != key@,
            decreases self.entries.len() - i,
        {
            if self.entries[i].0 == k {
                return Some(i);
            }
            i += 1;
        }
        None
    }

    /// Whether `key` is a key of the dict.
    pub fn contains_key(&self, key: &str) -> (b: bool)
        ensures
            b == self@.contains_key(key@),
    {
        let r = self.position(key);
        proof {
            use_type_invariant(self);
            let e = self.entry_models();
            match r {
                Some(i) => {
                    lemma_entries_lookup(e, i as int);
                },
                None => {
                    lemma_entries_absent(e, key@);
                },
            }
        }
        r.is_some()
    }

    /// The value under `key`, if there is one.
    pub fn get(&self, key: &str) -> (r: Option<&HumlValue>)
        ensures
            match r {
                Some(v) => self@.contains_key(key@) && v@ == self@[key@],
                None => !self@.contains_key(key@),
            },
    {
        let r = self.position(key);
        proof {
            use_type_invariant(self);
            let e = self.entry_models();
            match r {
                Some(i) => {
                    lemma_entries_lookup(e, i as int);
                },
                None => {
                    lemma_entries_absent(e, key@);
                },
            }
        }
        match r {
            Some(i) => Some(&self.entries[i].1),
            None => None,
        }
    }

    /// Puts `value` under `key`, in place of the value that was there, if any.
    /// A new key goes after the entries that are there; a key that is there
    /// keeps its place.
    pub fn insert(&mut self, key: String, value: HumlValue)
        ensures
            final(self)@ == old(self)@.insert(key@, value@),
            !old(self)@.contains_key(key@) ==> final(self).entry_trees() == old(
                self,
            ).entry_trees().push((key@, value.tree())),
            old(self)@.contains_key(key@) ==> exists|i: int|
                0 <= i < old(self).entry_trees().len() && (#[trigger] old(self).entry_trees()[i]).0
                    == key@ && final(self).entry_trees() == old(self).entry_trees().update(
                    i,
                    (key@, value.tree()),
                ),
    {
        let r = self.position(key.as_str());
        proof {
            use_type_invariant(&*self);
        }
        let ghost e = self.entry_models();
        let ghost t = self.entry_trees();
        let ghost k = key@;
        let ghost v = value@;
        let ghost vt = value.tree();
        let empty: Vec<(String, HumlValue)> = Vec::new();
        assert((HumlDict { entries: empty }).entry_models() =~= Seq::empty());
        let mut taken = HumlDict { entries: empty };
        core::mem::swap(self, &mut taken);
        let mut entries = taken.entries;
        match r {
            Some(i) => {
                proof {
                    lemma_entries_update(e, i as int, value@);
                    lemma_entries_lookup(e, i as int);
                }
                entries[i] = (key, value);
            },
            None => {
                entries.push((key, value));
            },
        }
        proof {
            match r {
                Some(i) => {
                    assert((HumlDict { entries }).entry_models() =~= e.update(
                        i as int,
                        (e[i as int].0, v),
                    ));
                    assert((HumlDict { entries }).entry_trees() =~= t.update(i as int, (k, vt)));
                    assert(t[i as int].0 == k);
                },
                None => {
                    lemma_entries_absent(e, k);
                    assert((HumlDict { entries }).entry_models() =~= e.push((k, v)));
                    assert(e.push((k, v)).drop_last() =~= e);
                    assert((HumlDict { entries }).entry_trees() =~= t.push((k, vt)));
                },
            }
        }
        *self = HumlDict { entries };
    }

    /// The entries, in the order in which their keys were first inserted.
    pub fn into_entries(self) -> (entries: Vec<(String, HumlValue)>)
        ensures
            entry_views(entries@) == self.entry_models(),
            keys_distinct(entry_views(entries@)),
            entries_map(entry_views(entries@)) == self@,
    {
        proof {
            use_type_invariant(&self);
            assert(entry_views(self.entries@) =~= self.entry_models());
        }
        self.entries
    }

    /// The key of the entry at `index`, in the order in which the entries were
    /// first inserted.
    pub fn key_at(&self, index: usize) -> (k: &String)
        requires
            index < self@.dom().len(),
        ensures
            k@ == self.entry_models()[index as int].0,
            k@ == self.entry_trees()[index as int].0,
            self@.contains_key(k@),
    {
        proof {
            use_type_invariant(self);
            self.lemma_len();
            lemma_entries_lookup(self.entry_models(), index as int);
        }
        &self.entries[index].0
    }

    /// The value of the entry at `index`.
    pub fn value_at(&self, index: usize) -> (v: &HumlValue)
        requires
            index < self@.dom().len(),
        ensures
            v@ == self.entry_models()[index as int].1,
            v@ == self@[self.entry_models()[index as int].0],
            v.tree() == self.entry_trees()[index as int].1,
    {
        proof {
            use_type_invariant(self);
            self.lemma_len();
            lemma_entries_lookup(self.entry_models(), index as int);
        }
        &self.entries[index].1
    }
}

impl View for HumlDict {
    type V = Map<Seq<char>, ValueModel>;

    closed spec fn view(&self) -> Map<Seq<char>, ValueModel> {
        entries_map(self.entry_models())
    }
}

/// A copy of `v`.
fn clone_value(v: &HumlValue) -> (r: HumlValue)
    ensures
        r@ == v@,
        r.tree() == v.tree(),
    decreases v.tree(),
{
    proof {
        lemma_value_tree(v);
        lemma_value_model(v);
    }
    match v {
        HumlValue::String(s) => {
            let r = HumlValue::String(s.clone());
            proof {
                lemma_value_tree(&r);
                lemma_value_model(&r);
            }
            r
        },
        HumlValue::Number(n) => {
            let r = HumlValue::Number(n.clone());
            proof {
                lemma_value_tree(&r);
                lemma_value_model(&r);
            }
            r
        },
        HumlValue::Boolean(b) => {
            let r = HumlValue::Boolean(*b);
            proof {
                lemma_value_tree(&r);
                lemma_value_model(&r);
            }
            r
        },
        HumlValue::Null => {
            let r = HumlValue::Null;
            proof {
                lemma_value_tree(&r);
                lemma_value_model(&r);
            }
            r
        },
        HumlValue::List(items) => {
            let ghost trees = v.tree()->List_0;
            let mut copies: Vec<HumlValue> = Vec::new();
            let mut i: usize = 0;
            while i < items.len()
                invariant
                    i <= items.len(),
                    copies.len() == i,
                    v.tree() == Tree::List(trees),
                    trees.len() == items.len(),
                    forall|j: int| 0 <= j < items.len() ==> #[trigger] trees[j] == items[j].tree(),
                    forall|j: int|
                        0 <= j < i ==> (#[trigger] copies[j])@ == items[j]@ && copies[j].tree()
                            == items[j].tree(),
                decreases items.len() - i,
            {
                proof {
                    assert(trees[i as int] == items[i as int].tree());
                    vstd::seq::axiom_seq_index_decreases(trees, i as int);
                    assert(v.tree() is List);
                    assert(decreases_to!(v.tree() => v.tree()->List_0));
                }
                let copy = clone_value(&items[i]);
                copies.push(copy);
                i += 1;
            }
            let r = HumlValue::List(copies);
            proof {
                lemma_value_tree(&r);
                lemma_value_model(&r);
                assert(r@->List_0 =~= v@->List_0);
                assert(r.tree()->List_0 =~= trees);
            }
            r
        },
        HumlValue::Dict(d) => {
            let ghost trees = d.entry_trees();
            let ghost entry_models = d.entry_models();
            proof {
                use_type_invariant(d);
            }
            let mut copies: Vec<(String, HumlValue)> = Vec::new();
            let mut i: usize = 0;
            while i < d.entries.len()
                invariant
                    i <= d.entries.len(),
                    copies.len() == i,
                    v.tree() == Tree::Dict(trees),
                    trees == d.entry_trees(),
                    entry_models == d.entry_models(),
                    forall|j: int|
                        0 <= j < i ==> (#[trigger] copies[j]).0@ == d.entries[j].0@ && copies[j].1@
                            == d.entries[j].1@ && copies[j].1.tree() == d.entries[j].1.tree(),
                decreases d.entries.len() - i,
            {
                proof {
                    assert(trees[i as int].1 == d.entries[i as int].1.tree());
                    vstd::seq::axiom_seq_index_decreases(trees, i as int);
                    assert(v.tree() is Dict);
                    assert(decreases_to!(v.tree() => v.tree()->Dict_0));
                    assert(decreases_to!(trees[i as int] => trees[i as int].1));
                }
                let key = d.entries[i].0.clone();
                let value = clone_value(&d.entries[i].1);
                copies.push((key, value));
                i += 1;
            }
            proof {
                assert((HumlDict { entries: copies }).entry_models() =~= entry_models);
                assert((HumlDict { entries: copies }).entry_trees() =~= trees);
            }
            let r = HumlValue::Dict(HumlDict { entries: copies });
            proof {
                lemma_value_tree(&r);
                lemma_value_model(&r);
            }
            r
        },
    }
}

impl Clone for HumlValue {
    fn clone(&self) -> (r: Self)
        ensures
            r@ == self@,
            r.tree() == self.tree(),
    {
        clone_value(self)
    }
}

impl Clone for HumlDict {
    fn clone(&self) -> (r: Self)
        ensures
            r@ == self@,
            r.entry_trees() == self.entry_trees(),
    {
        proof {
            use_type_invariant(self);
        }
        let mut copies: Vec<(String, HumlValue)> = Vec::new();
        let mut i: usize = 0;
        while i < self.entries.len()
            invariant
                i <= self.entries.len(),
                copies.len() == i,
                forall|j: int|
                    0 <= j < i ==> (#[trigger] copies[j]).0@ == self.entries[j].0@ && copies[j].1@
                        == self.entries[j].1@ && copies[j].1.tree() == self.entries[j].1.tree(),
            decreases self.entries.len() - i,
        {
            let key = self.entries[i].0.clone();
            let value = clone_value(&self.entries[i].1);
            copies.push((key, value));
            i += 1;
        }
        proof {
            assert((HumlDict { entries: copies }).entry_models() =~= self.entry_models());
            assert((HumlDict { entries: copies }).entry_trees() =~= self.entry_trees());
        }
        HumlDict { entries: copies }
    }
}

impl Clone for HumlDocument {
    fn clone(&self) -> (r: Self)
        ensures
            r@ == self@,
    {
        HumlDocument {
            version: match &self.version {
                Some(v) => Some(v.clone()),
                None => None,
            },
            root: clone_value(&self.root),
        }
    }
}

impl Clone for HumlNumber {
    fn clone(&self) -> (r: Self)
        ensures
            r@ == self@,
    {
        match self {
            HumlNumber::Integer(i) => HumlNumber::Integer(*i),
            HumlNumber::Float(literal) => HumlNumber::Float(literal.clone()),
            HumlNumber::Nan => HumlNumber::Nan,
            HumlNumber::Infinity(positive) => HumlNumber::Infinity(*positive),
        }
    }
}

impl PartialEq for HumlNumber {
    fn eq(&self, other: &Self) -> (r: bool) {
        match (self, other) {
            (HumlNumber::Integer(a), HumlNumber::Integer(b)) => *a == *b,
            (HumlNumber::Float(a), HumlNumber::Float(b)) => *a == *b,
            (HumlNumber::Nan, HumlNumber::Nan) => true,
            (HumlNumber::Infinity(a), HumlNumber::Infinity(b)) => *a == *b,
            _ => false,
        }
    }
}

impl PartialEqSpecImpl for HumlNumber {
    open spec fn obeys_eq_spec() -> bool {
        true
    }

    open spec fn eq_spec(&self, other: &Self) -> bool {
        self@ == other@
    }
}

/// A key of the map of some entries is the key of one of them.
proof fn lemma_entries_index(e: Seq<(Seq<char>, ValueModel)>, k: Seq<char>)
    requires
        entries_map(e).contains_key(k),
    ensures
        exists|i: int| 0 <= i < e.len() && (#[trigger] e[i]).0 == k,
{
    if forall|i: int| 0 <= i < e.len() ==> (#[trigger] e[i]).0 != k {
        lemma_entries_absent(e, k);
    }
}

/// Whether `a` and `b` have one model.
fn value_eq(a: &HumlValue, b: &HumlValue) -> (r: bool)
    ensures
        r == (a@ == b@),
    decreases a.tree(),
{
    proof {
        lemma_value_model(a);
        lemma_value_model(b);
        lemma_value_tree(a);
    }
    match (a, b) {
        (HumlValue::String(x), HumlValue::String(y)) => *x == *y,
        (HumlValue::Number(x), HumlValue::Number(y)) => *x == *y,
        (HumlValue::Boolean(x), HumlValue::Boolean(y)) => *x == *y,
        (HumlValue::Null, HumlValue::Null) => true,
        (HumlValue::List(xs), HumlValue::List(ys)) => {
            let ghost trees = a.tree()->List_0;
            let ghost am = a@->List_0;
            let ghost bm = b@->List_0;
            if xs.len() != ys.len() {
                return false;
            }
            let mut i: usize = 0;
            while i < xs.len()
                invariant
                    i <= xs.len(),
                    xs.len() == ys.len(),
                    a@ == ValueModel::List(am),
                    b@ == ValueModel::List(bm),
                    am.len() == xs.len(),
                    bm.len() == ys.len(),
                    forall|j: int| 0 <= j < xs.len() ==> #[trigger] am[j] == xs[j]@,
                    forall|j: int| 0 <= j < ys.len() ==> #[trigger] bm[j] == ys[j]@,
                    a.tree() == Tree::List(trees),
                    trees.len() == xs.len(),
                    forall|j: int| 0 <= j < xs.len() ==> #[trigger] trees[j] == xs[j].tree(),
                    forall|j: int| 0 <= j < i ==> (#[trigger] xs[j])@ == ys[j]@,
                decreases xs.len() - i,
            {
                proof {
                    assert(trees[i as int] == xs[i as int].tree());
                    vstd::seq::axiom_seq_index_decreases(trees, i as int);
                    assert(a.tree() is List);
                    assert(decreases_to!(a.tree() => a.tree()->List_0));
                }
                if !value_eq(&xs[i], &ys[i]) {
                    assert(am[i as int] != bm[i as int]);
                    return false;
                }
                i += 1;
            }
            assert(am =~= bm);
            true
        },
        (HumlValue::Dict(d), HumlValue::Dict(e)) => {
            let ghost trees = d.entry_trees();
            let ghost dm = d.entry_models();
            let ghost em = e.entry_models();
            proof {
                use_type_invariant(d);
                use_type_invariant(e);
                d.lemma_len();
                e.lemma_len();
            }
            if d.entries.len() != e.entries.len() {
                return false;
            }
            let mut i: usize = 0;
            while i < d.entries.len()
                invariant
                    i <= d.entries.len(),
                    a.tree() == Tree::Dict(trees),
                    a@ == ValueModel::Dict(d@),
                    b@ == ValueModel::Dict(e@),
                    trees == d.entry_trees(),
                    dm == d.entry_models(),
                    em == e.entry_models(),
                    keys_distinct(dm),
                    keys_distinct(em),
                    forall|j: int|
                        0 <= j < i ==> e@.contains_key((#[trigger] dm[j]).0) && e@[dm[j].0]
                            == dm[j].1,
                decreases d.entries.len() - i,
            {
                proof {
                    assert(trees[i as int].1 == d.entries[i as int].1.tree());
                    vstd::seq::axiom_seq_index_decreases(trees, i as int);
                    assert(a.tree() is Dict);
                    assert(decreases_to!(a.tree() => a.tree()->Dict_0));
                    assert(decreases_to!(trees[i as int] => trees[i as int].1));
                    lemma_entries_lookup(dm, i as int);
                }
                match e.position(d.entries[i].0.as_str()) {
                    None => {
                        proof {
                            lemma_entries_absent(em, dm[i as int].0);
                        }
                        return false;
                    },
                    Some(j) => {
                        proof {
                            lemma_entries_lookup(em, j as int);
                        }
                        if !value_eq(&d.entries[i].1, &e.entries[j].1) {
                            return false;
                        }
                    },
                }
                i += 1;
            }
            proof {
                assert forall|k: Seq<char>| d@.contains_key(k) implies e@.contains_key(k) && e@[k]
                    == d@[k] by {
                    lemma_entries_index(dm, k);
                    let j = choose|j: int| 0 <= j < dm.len() && (#[trigger] dm[j]).0 == k;
                    lemma_entries_lookup(dm, j);
                }
                assert forall|k: Seq<char>| d@.dom().contains(k) implies e@.dom().contains(k) by {
                    lemma_entries_index(dm, k);
                    let j = choose|j: int| 0 <= j < dm.len() && (#[trigger] dm[j]).0 == k;
                    assert(e@.contains_key(dm[j].0));
                }
                assert(d@.dom().subset_of(e@.dom()));
                vstd::set_lib::lemma_subset_equality(d@.dom(), e@.dom());
                assert(d@ =~= e@);
            }
            true
        },
        _ => false,
    }
}

impl PartialEq for HumlValue {
    fn eq(&self, other: &Self) -> (r: bool) {
        value_eq(self, other)
    }
}

impl PartialEqSpecImpl for HumlValue {
    open spec fn obeys_eq_spec() -> bool {
        true
    }

    open spec fn eq_spec(&self, other: &Self) -> bool {
        self@ == other@
    }
}

impl PartialEq for HumlDict {
    fn eq(&self, other: &Self) -> (r: bool) {
        proof {
            use_type_invariant(self);
            use_type_invariant(other);
            self.lemma_len();
            other.lemma_len();
        }
        let ghost dm = self.entry_models();
        let ghost em = other.entry_models();
        if self.entries.len() != other.entries.len() {
            return false;
        }
        let mut i: usize = 0;
        while i < self.entries.len()
            invariant
                i <= self.entries.len(),
                dm == self.entry_models(),
                em == other.entry_models(),
                keys_distinct(dm),
                keys_distinct(em),
                forall|j: int|
                    0 <= j < i ==> other@.contains_key((#[trigger] dm[j]).0) && other@[dm[j].0]
                        == dm[j].1,
            decreases self.entries.len() - i,
        {
            proof {
                lemma_entries_lookup(dm, i as int);
            }
            match other.position(self.entries[i].0.as_str()) {
                None => {
                    proof {
                        lemma_entries_absent(em, dm[i as int].0);
                    }
                    return false;
                },
                Some(j) => {
                    proof {
                        lemma_entries_lookup(em, j as int);
                    }
                    if !value_eq(&self.entries[i].1, &other.entries[j].1) {
                        return false;
                    }
                },
            }
            i += 1;
        }
        proof {
            assert forall|k: Seq<char>| self@.contains_key(k) implies other@.contains_key(k)
                && other@[k] == self@[k] by {
                lemma_entries_index(dm, k);
                let j = choose|j: int| 0 <= j < dm.len() && (#[trigger] dm[j]).0 == k;
                lemma_entries_lookup(dm, j);
            }
            assert forall|k: Seq<char>| self@.dom().contains(k) implies other@.dom().contains(
                k,
            ) by {
                lemma_entries_index(dm, k);
                let j = choose|j: int| 0 <= j < dm.len() && (#[trigger] dm[j]).0 == k;
                assert(other@.contains_key(dm[j].0));
            }
            assert(self@.dom().subset_of(other@.dom()));
            vstd::set_lib::lemma_subset_equality(self@.dom(), other@.dom());
            assert(self@ =~= other@);
        }
        true
    }
}

impl PartialEqSpecImpl for HumlDict {
    open spec fn obeys_eq_spec() -> bool {
        true
    }

    open spec fn eq_spec(&self, other: &Self) -> bool {
        self@ == other@
    }
}

impl PartialEq for HumlDocument {
    fn eq(&self, other: &Self) -> (r: bool) {
        let versions = match (&self.version, &other.version) {
            (Some(a), Some(b)) => *a == *b,
            (None, None) => true,
            _ => false,
        };
        versions && value_eq(&self.root, &other.root)
    }
}

impl PartialEqSpecImpl for HumlDocument {
    open spec fn obeys_eq_spec() -> bool {
        true
    }

    open spec fn eq_spec(&self, other: &Self) -> bool {
        self@ == other@
    }
}

} // verus!
