//! The document tree: a recursive tagged value with a mathematical model,
//! plus the object operations (lookup and last-write-wins insertion) that
//! define the duplicate-key collapse policy.

use vstd::prelude::*;

verus! {

/// Mathematical model of a document value. Numbers keep their decimal text,
/// which is also their canonical rendering.
pub enum ValueModel {
    Null,
    Bool(bool),
    Num(Seq<char>),
    Str(Seq<char>),
    Arr(Seq<ValueModel>),
    Obj(Seq<(Seq<char>, ValueModel)>),
}

/// A document value, built once by the parser and then only read.
#[derive(Debug)]
pub enum Value {
    Null,
    Bool(bool),
    Num(String),
    Str(String),
    Array(Vec<Value>),
    Object(Vec<(String, Value)>),
}

impl Value {
    /// Model of this value.
    pub open spec fn vm(self) -> ValueModel
        decreases self,
    {
        match self {
            Value::Null => ValueModel::Null,
            Value::Bool(b) => ValueModel::Bool(b),
            Value::Num(s) => ValueModel::Num(s@),
            Value::Str(s) => ValueModel::Str(s@),
            Value::Array(a) => {
                proof {
                    assert(decreases_to!(a => a@));
                }
                ValueModel::Arr(vm_list(a@))
            },
            Value::Object(o) => {
                proof {
                    assert(decreases_to!(o => o@));
                }
                ValueModel::Obj(vm_pairs(o@))
            },
        }
    }
}

/// Models of the values of a sequence, element by element.
pub open spec fn vm_list(xs: Seq<Value>) -> Seq<ValueModel>
    decreases xs,
{
    if xs.len() == 0 {
        Seq::empty()
    } else {
        seq![xs[0].vm()] + vm_list(xs.drop_first())
    }
}

/// Models of the entries of an object's entry list, pair by pair.
pub open spec fn vm_pairs(es: Seq<(String, Value)>) -> Seq<(Seq<char>, ValueModel)>
    decreases es,
{
    if es.len() == 0 {
        Seq::empty()
    } else {
        proof {
            assert(decreases_to!(es[0] => es[0].1));
        }
        seq![(es[0].0@, es[0].1.vm())] + vm_pairs(es.drop_first())
    }
}

/// Model of a value sequence, stated by index.
pub open spec fn arr_model(xs: Seq<Value>) -> Seq<ValueModel> {
    Seq::new(xs.len(), |i: int| xs[i].vm())
}

/// Model of an object's entry list, stated by index.
pub open spec fn entries_model(es: Seq<(String, Value)>) -> Seq<(Seq<char>, ValueModel)> {
    Seq::new(es.len(), |i: int| (es[i].0@, es[i].1.vm()))
}

/// The element-by-element model is the by-index model.
pub broadcast proof fn lemma_vm_list(xs: Seq<Value>)
    ensures
        #[trigger] vm_list(xs) == arr_model(xs),
    decreases xs.len(),
{
    if xs.len() == 0 {
        assert(vm_list(xs) =~= arr_model(xs));
    } else {
        lemma_vm_list(xs.drop_first());
        assert(vm_list(xs) =~= arr_model(xs));
    }
}

/// The pair-by-pair model is the by-index model.
pub broadcast proof fn lemma_vm_pairs(es: Seq<(String, Value)>)
    ensures
        #[trigger] vm_pairs(es) == entries_model(es),
    decreases es.len(),
{
    if es.len() == 0 {
        assert(vm_pairs(es) =~= entries_model(es));
    } else {
        lemma_vm_pairs(es.drop_first());
        assert(vm_pairs(es) =~= entries_model(es));
    }
}

/// First value held under `k`, scanning the entries in order.
pub open spec fn obj_get(es: Seq<(Seq<char>, ValueModel)>, k: Seq<char>) -> Option<ValueModel>
    decreases es.len(),
{
    if es.len() == 0 {
        None
    } else if es[0].0 == k {
        Some(es[0].1)
    } else {
        obj_get(es.drop_first(), k)
    }
}

/// Whether some entry is keyed `k`.
pub open spec fn obj_has_key(es: Seq<(Seq<char>, ValueModel)>, k: Seq<char>) -> bool {
    obj_get(es, k) is Some
}

/// Last-write-wins insertion: an existing entry under `k` is overwritten in
/// place, otherwise the new entry is appended.
pub open spec fn obj_insert(
    es: Seq<(Seq<char>, ValueModel)>,
    k: Seq<char>,
    v: ValueModel,
) -> Seq<(Seq<char>, ValueModel)>
    decreases es.len(),
{
    if es.len() == 0 {
        seq![(k, v)]
    } else if es[0].0 == k {
        seq![(k, v)] + es.drop_first()
    } else {
        seq![es[0]] + obj_insert(es.drop_first(), k, v)
    }
}

/// No two entries share a key.
pub open spec fn keys_unique(es: Seq<(Seq<char>, ValueModel)>) -> bool {
    forall|i: int, j: int| 0 <= i < j < es.len() ==> es[i].0 != es[j].0
}

/// Every object in the tree has pairwise-distinct keys.
pub open spec fn vm_wf(v: ValueModel) -> bool
    decreases v,
{
    match v {
        ValueModel::Obj(es) => keys_unique(es) && wf_entries(es),
        ValueModel::Arr(xs) => wf_list(xs),
        _ => true,
    }
}

/// Well-formedness of every entry value of an object.
pub open spec fn wf_entries(es: Seq<(Seq<char>, ValueModel)>) -> bool
    decreases es,
{
    es.len() == 0 || (vm_wf(es[0].1) && wf_entries(es.drop_first()))
}

/// Well-formedness of every element of an array.
pub open spec fn wf_list(xs: Seq<ValueModel>) -> bool
    decreases xs,
{
    xs.len() == 0 || (vm_wf(xs[0]) && wf_list(xs.drop_first()))
}

/// Entry well-formedness, stated by index.
pub broadcast proof fn lemma_wf_entries(es: Seq<(Seq<char>, ValueModel)>)
    ensures
        #[trigger] wf_entries(es) <==> forall|i: int|
            0 <= i < es.len() ==> #[trigger] vm_wf(es[i].1),
    decreases es.len(),
{
    if es.len() > 0 {
        lemma_wf_entries(es.drop_first());
        if vm_wf(es[0].1) && wf_entries(es.drop_first()) {
            assert forall|i: int| 0 <= i < es.len() implies #[trigger] vm_wf(es[i].1) by {
                if i > 0 {
                    assert(vm_wf(es.drop_first()[i - 1].1));
                }
            }
        }
        if forall|i: int| 0 <= i < es.len() ==> #[trigger] vm_wf(es[i].1) {
            assert forall|i: int|
                0 <= i < es.drop_first().len() implies #[trigger] vm_wf(
                es.drop_first()[i].1,
            ) by {
                assert(es.drop_first()[i] == es[i + 1]);
            }
        }
    }
}

/// Element well-formedness, stated by index.
pub broadcast proof fn lemma_wf_list(xs: Seq<ValueModel>)
    ensures
        #[trigger] wf_list(xs) <==> forall|i: int| 0 <= i < xs.len() ==> #[trigger] vm_wf(xs[i]),
    decreases xs.len(),
{
    if xs.len() > 0 {
        lemma_wf_list(xs.drop_first());
        if vm_wf(xs[0]) && wf_list(xs.drop_first()) {
            assert forall|i: int| 0 <= i < xs.len() implies #[trigger] vm_wf(xs[i]) by {
                if i > 0 {
                    assert(vm_wf(xs.drop_first()[i - 1]));
                }
            }
        }
        if forall|i: int| 0 <= i < xs.len() ==> #[trigger] vm_wf(xs[i]) {
            assert forall|i: int|
                0 <= i < xs.drop_first().len() implies #[trigger] vm_wf(xs.drop_first()[i]) by {
                assert(xs.drop_first()[i] == xs[i + 1]);
            }
        }
    }
}

/// Inserting under `k` makes `k` map to `v` and leaves every other key
/// unchanged; it also keeps keys pairwise distinct.
pub proof fn lemma_obj_insert_get(es: Seq<(Seq<char>, ValueModel)>, k: Seq<char>, v: ValueModel)
    ensures
        obj_get(obj_insert(es, k, v), k) == Some(v),
        forall|k2: Seq<char>| k2 != k ==> obj_get(obj_insert(es, k, v), k2) == obj_get(es, k2),
        keys_unique(es) ==> keys_unique(obj_insert(es, k, v)),
        obj_insert(es, k, v).len() == if obj_has_key(es, k) {
            es.len() as int
        } else {
            es.len() + 1 as int
        },
    decreases es.len(),
{
    if es.len() == 0 {
        assert forall|k2: Seq<char>| k2 != k implies obj_get(obj_insert(es, k, v), k2) == obj_get(
            es,
            k2,
        ) by {
            assert(obj_insert(es, k, v) == seq![(k, v)]);
            assert(obj_get(seq![(k, v)], k2) == obj_get(seq![(k, v)].drop_first(), k2));
            assert(seq![(k, v)].drop_first() =~= Seq::<(Seq<char>, ValueModel)>::empty());
        }
    } else if es[0].0 == k {
        let r = obj_insert(es, k, v);
        assert(r == seq![(k, v)] + es.drop_first());
        assert(r[0] == (k, v));
        assert(r.drop_first() =~= es.drop_first());
        if keys_unique(es) {
            assert forall|i: int, j: int| 0 <= i < j < r.len() implies r[i].0 != r[j].0 by {
                if i == 0 {
                    assert(r[j] == es.drop_first()[j - 1]);
                    assert(es.drop_first()[j - 1] == es[j]);
                    assert(es[0].0 != es[j].0);
                } else {
                    assert(r[i] == es[i]);
                    assert(r[j] == es[j]);
                }
            }
        }
    } else {
        lemma_obj_insert_get(es.drop_first(), k, v);
        let r = obj_insert(es, k, v);
        assert(r == seq![es[0]] + obj_insert(es.drop_first(), k, v));
        assert(r[0] == es[0]);
        assert(r.drop_first() =~= obj_insert(es.drop_first(), k, v));
        assert(obj_get(r, k) == obj_get(obj_insert(es.drop_first(), k, v), k));
        assert forall|k2: Seq<char>| k2 != k implies obj_get(r, k2) == obj_get(es, k2) by {
            if es[0].0 == k2 {
            } else {
                assert(obj_get(r, k2) == obj_get(obj_insert(es.drop_first(), k, v), k2));
                assert(obj_get(es, k2) == obj_get(es.drop_first(), k2));
            }
        }
        if keys_unique(es) {
            assert(keys_unique(es.drop_first())) by {
                assert forall|i: int, j: int|
                    0 <= i < j < es.drop_first().len() implies es.drop_first()[i].0
                    != es.drop_first()[j].0 by {
                    assert(es.drop_first()[i] == es[i + 1]);
                    assert(es.drop_first()[j] == es[j + 1]);
                }
            }
            let r2 = obj_insert(es.drop_first(), k, v);
            assert(keys_unique(r2));
            assert forall|i: int, j: int| 0 <= i < j < r.len() implies r[i].0 != r[j].0 by {
                if i == 0 {
                    assert(r[j] == r2[j - 1]);
                    lemma_obj_insert_keys(es.drop_first(), k, v, j - 1);
                    assert(r2[j - 1].0 == k || obj_has_key(es.drop_first(), r2[j - 1].0));
                    if r2[j - 1].0 == es[0].0 {
                        lemma_obj_get_witness(es.drop_first(), es[0].0);
                    }
                } else {
                    assert(r[i] == r2[i - 1]);
                    assert(r[j] == r2[j - 1]);
                }
            }
        }
    }
}

/// Every key of an inserted entry list is the new key or one already
/// present.
pub proof fn lemma_obj_insert_keys(
    es: Seq<(Seq<char>, ValueModel)>,
    k: Seq<char>,
    v: ValueModel,
    i: int,
)
    requires
        0 <= i < obj_insert(es, k, v).len(),
    ensures
        obj_insert(es, k, v)[i].0 == k || obj_has_key(es, obj_insert(es, k, v)[i].0),
    decreases es.len(),
{
    let r = obj_insert(es, k, v);
    if es.len() == 0 {
    } else if es[0].0 == k {
        if i > 0 {
            assert(r[i] == es.drop_first()[i - 1]);
            assert(r[i] == es[i]);
            lemma_obj_get_index(es, i);
        }
    } else {
        if i == 0 {
            assert(r[0] == es[0]);
            assert(obj_get(es, es[0].0) == Some(es[0].1));
        } else {
            assert(r[i] == obj_insert(es.drop_first(), k, v)[i - 1]);
            lemma_obj_insert_keys(es.drop_first(), k, v, i - 1);
            let key = r[i].0;
            if key != k {
                assert(obj_has_key(es.drop_first(), key));
                if es[0].0 != key {
                    assert(obj_get(es, key) == obj_get(es.drop_first(), key));
                }
            }
        }
    }
}

/// The key at any index of an entry list is present in the list.
pub proof fn lemma_obj_get_index(es: Seq<(Seq<char>, ValueModel)>, i: int)
    requires
        0 <= i < es.len(),
    ensures
        obj_has_key(es, es[i].0),
    decreases es.len(),
{
    if es[0].0 == es[i].0 {
    } else {
        lemma_obj_get_index(es.drop_first(), i - 1);
        assert(es.drop_first()[i - 1] == es[i]);
    }
}

/// A present key is held at some index.
pub proof fn lemma_obj_get_witness(es: Seq<(Seq<char>, ValueModel)>, k: Seq<char>)
    requires
        obj_has_key(es, k),
    ensures
        exists|i: int| 0 <= i < es.len() && es[i].0 == k,
    decreases es.len(),
{
    if es.len() > 0 {
        if es[0].0 == k {
            assert(es[0].0 == k);
        } else {
            lemma_obj_get_witness(es.drop_first(), k);
            let i = choose|i: int| 0 <= i < es.drop_first().len() && es.drop_first()[i].0 == k;
            assert(es[i + 1].0 == k);
        }
    }
}

/// If the first match for `k` in the list is at index `i`, `obj_get`
/// returns that entry's value.
pub proof fn lemma_obj_get_first(es: Seq<(Seq<char>, ValueModel)>, k: Seq<char>, i: int)
    requires
        0 <= i < es.len(),
        es[i].0 == k,
        forall|t: int| 0 <= t < i ==> es[t].0 != k,
    ensures
        obj_get(es, k) == Some(es[i].1),
    decreases i,
{
    if i > 0 {
        lemma_obj_get_first(es.drop_first(), k, i - 1);
        assert(es.drop_first()[i - 1] == es[i]);
    }
}

/// If no entry is keyed `k`, `obj_get` returns `None`.
pub proof fn lemma_obj_get_none(es: Seq<(Seq<char>, ValueModel)>, k: Seq<char>)
    requires
        forall|t: int| 0 <= t < es.len() ==> es[t].0 != k,
    ensures
        obj_get(es, k) is None,
    decreases es.len(),
{
    if es.len() > 0 {
        lemma_obj_get_none(es.drop_first(), k);
    }
}

/// Look a key up in an object's entry list.
pub fn entries_get<'a>(es: &'a Vec<(String, Value)>, key: &String) -> (r: Option<&'a Value>)
    ensures
        match r {
            Some(v) => obj_get(entries_model(es@), key@) == Some(v.vm()),
            None => obj_get(entries_model(es@), key@) is None,
        },
{
    let mut i: usize = 0;
    while i < es.len()
        invariant
            0 <= i <= es@.len(),
            forall|t: int| 0 <= t < i ==> es@[t].0@ != key@,
        decreases es@.len() - i,
    {
        if es[i].0 == *key {
            proof {
                assert(entries_model(es@)[i as int].0 == key@);
                assert(forall|t: int| 0 <= t < i ==> entries_model(es@)[t].0 != key@);
                lemma_obj_get_first(entries_model(es@), key@, i as int);
            }
            return Some(&es[i].1);
        }
        i += 1;
    }
    proof {
        assert(forall|t: int| 0 <= t < es@.len() ==> entries_model(es@)[t].0 != key@);
        lemma_obj_get_none(entries_model(es@), key@);
    }
    None
}

/// Insert under last-write-wins: overwrite the entry holding `key`, or
/// append a new one.
#[verifier::loop_isolation(false)]
pub fn entries_insert(es: &mut Vec<(String, Value)>, key: String, v: Value)
    ensures
        entries_model(final(es)@) == obj_insert(entries_model(old(es)@), key@, v.vm()),
{
    let ghost es0 = entries_model(old(es)@);
    let mut i: usize = 0;
    while i < es.len()
        invariant
            0 <= i <= es@.len(),
            es@ == old(es)@,
            forall|t: int| 0 <= t < i ==> es@[t].0@ != key@,
        decreases es@.len() - i,
    {
        if es[i].0 == *(&key) {
            let ghost iv = i as int;
            let ghost k0 = key@;
            let ghost v0 = v.vm();
            es[i] = (key, v);
            proof {
                assert(es0[iv] == (old(es)@[iv].0@, old(es)@[iv].1.vm()));
                assert(es0[iv].0 == k0);
                lemma_obj_insert_update(es0, k0, v0, iv);
                assert(entries_model(es@) =~= es0.update(iv, (k0, v0)));
            }
            return ;
        }
        i += 1;
    }
    let ghost k0 = key@;
    let ghost v0 = v.vm();
    es.push((key, v));
    proof {
        assert(forall|t: int| 0 <= t < es0.len() ==> es0[t].0 != k0);
        lemma_obj_insert_append(es0, k0, v0);
        assert(entries_model(es@) =~= es0.push((k0, v0)));
    }
}

/// When the first match for `k` is at index `i`, insertion is an in-place
/// update.
pub proof fn lemma_obj_insert_update(
    es: Seq<(Seq<char>, ValueModel)>,
    k: Seq<char>,
    v: ValueModel,
    i: int,
)
    requires
        0 <= i < es.len(),
        es[i].0 == k,
        forall|t: int| 0 <= t < i ==> es[t].0 != k,
    ensures
        obj_insert(es, k, v) == es.update(i, (k, v)),
    decreases i,
{
    if i == 0 {
        assert(obj_insert(es, k, v) == seq![(k, v)] + es.drop_first());
        assert(seq![(k, v)] + es.drop_first() =~= es.update(0, (k, v)));
    } else {
        lemma_obj_insert_update(es.drop_first(), k, v, i - 1);
        assert(es.drop_first()[i - 1] == es[i]);
        assert(obj_insert(es, k, v) == seq![es[0]] + es.drop_first().update(i - 1, (k, v)));
        assert(seq![es[0]] + es.drop_first().update(i - 1, (k, v)) =~= es.update(i, (k, v)));
    }
}

/// When `k` is absent, insertion is an append.
pub proof fn lemma_obj_insert_append(es: Seq<(Seq<char>, ValueModel)>, k: Seq<char>, v: ValueModel)
    requires
        forall|t: int| 0 <= t < es.len() ==> es[t].0 != k,
    ensures
        obj_insert(es, k, v) == es.push((k, v)),
    decreases es.len(),
{
    if es.len() == 0 {
        assert(obj_insert(es, k, v) =~= es.push((k, v)));
    } else {
        lemma_obj_insert_append(es.drop_first(), k, v);
        assert(obj_insert(es, k, v) == seq![es[0]] + es.drop_first().push((k, v)));
        assert(seq![es[0]] + es.drop_first().push((k, v)) =~= es.push((k, v)));
    }
}

impl Value {
    /// Deep copy; the copy has the same model.
    #[verifier::loop_isolation(false)]
    pub fn duplicate(&self) -> (r: Value)
        ensures
            r.vm() == self.vm(),
        decreases self,
    {
        match self {
            Value::Null => Value::Null,
            Value::Bool(b) => Value::Bool(*b),
            Value::Num(s) => Value::Num(s.clone()),
            Value::Str(s) => Value::Str(s.clone()),
            Value::Array(a) => {
                let mut out: Vec<Value> = Vec::new();
                let mut i: usize = 0;
                while i < a.len()
                    invariant
                        0 <= i <= a@.len(),
                        out@.len() == i,
                        forall|t: int| 0 <= t < i ==> out@[t].vm() == a@[t].vm(),
                    decreases a@.len() - i,
                {
                    proof {
                        assert(decreases_to!(a => a@));
                        assert(decreases_to!(a@ => a@[i as int]));
                    }
                    out.push(a[i].duplicate());
                    i += 1;
                }
                proof {
                    lemma_vm_list(out@);
                    lemma_vm_list(a@);
                    assert(arr_model(out@) =~= arr_model(a@));
                }
                Value::Array(out)
            },
            Value::Object(o) => {
                let mut out: Vec<(String, Value)> = Vec::new();
                let mut i: usize = 0;
                while i < o.len()
                    invariant
                        0 <= i <= o@.len(),
                        out@.len() == i,
                        forall|t: int|
                            0 <= t < i ==> out@[t].0@ == o@[t].0@ && out@[t].1.vm() == o@[t].1.vm(),
                    decreases o@.len() - i,
                {
                    let k = o[i].0.clone();
                    proof {
                        assert(decreases_to!(o => o@));
                        assert(decreases_to!(o@ => o@[i as int]));
                        assert(decreases_to!(o@[i as int] => o@[i as int].1));
                    }
                    let v = o[i].1.duplicate();
                    out.push((k, v));
                    i += 1;
                }
                proof {
                    lemma_vm_pairs(out@);
                    lemma_vm_pairs(o@);
                    assert(entries_model(out@) =~= entries_model(o@));
                }
                Value::Object(out)
            },
        }
    }

    /// Value held under `key` when this value is an object holding it.
    pub fn get<'a>(&'a self, key: &String) -> (r: Option<&'a Value>)
        ensures
            match r {
                Some(v) => self.vm() matches ValueModel::Obj(es) && obj_get(es, key@) == Some(
                    v.vm(),
                ),
                None => match self.vm() {
                    ValueModel::Obj(es) => obj_get(es, key@) is None,
                    _ => true,
                },
            },
    {
        match self {
            Value::Object(o) => {
                proof {
                    lemma_vm_pairs(o@);
                }
                entries_get(o, key)
            },
            _ => None,
        }
    }

    /// The text of a string value.
    pub fn as_str<'a>(&'a self) -> (r: Option<&'a str>)
        ensures
            match r {
                Some(s) => self.vm() matches ValueModel::Str(t) && s@ == t,
                None => !(self.vm() is Str),
            },
    {
        match self {
            Value::Str(s) => Some(s.as_str()),
            _ => None,
        }
    }

    /// The truth of a boolean value.
    pub fn as_bool(&self) -> (r: Option<bool>)
        ensures
            match r {
                Some(b) => self.vm() == ValueModel::Bool(b),
                None => !(self.vm() is Bool),
            },
    {
        match self {
            Value::Bool(b) => Some(*b),
            _ => None,
        }
    }

    /// The decimal text of a number value.
    pub fn as_num_str<'a>(&'a self) -> (r: Option<&'a str>)
        ensures
            match r {
                Some(s) => self.vm() matches ValueModel::Num(t) && s@ == t,
                None => !(self.vm() is Num),
            },
    {
        match self {
            Value::Num(s) => Some(s.as_str()),
            _ => None,
        }
    }
}

/// Every string in the tree is well-formed text. Strings are held decoded,
/// so this is true of every value; it mirrors a check made on emitted
/// documents.
#[verifier::loop_isolation(false)]
pub fn validate_json_strings(value: &Value) -> (r: bool)
    ensures
        r,
    decreases value,
{
    match value {
        Value::Str(_) => true,
        Value::Array(a) => {
            let mut i: usize = 0;
            let mut ok = true;
            while i < a.len()
                invariant
                    ok,
                    0 <= i <= a@.len(),
                decreases a@.len() - i,
            {
                proof {
                    assert(decreases_to!(a => a@));
                    assert(decreases_to!(a@ => a@[i as int]));
                }
                ok = ok && validate_json_strings(&a[i]);
                i += 1;
            }
            ok
        },
        Value::Object(o) => {
            let mut i: usize = 0;
            let mut ok = true;
            while i < o.len()
                invariant
                    ok,
                    0 <= i <= o@.len(),
                decreases o@.len() - i,
            {
                proof {
                    assert(decreases_to!(o => o@));
                    assert(decreases_to!(o@ => o@[i as int]));
                    assert(decreases_to!(o@[i as int] => o@[i as int].1));
                }
                ok = ok && validate_json_strings(&o[i].1);
                i += 1;
            }
            ok
        },
        _ => true,
    }
}

} // verus!
