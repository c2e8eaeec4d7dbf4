//! The query engine: one parsed save (document trees plus the raw primary
//! payload) and the read-only operations over it. Every operation is a
//! pure function of the retained state.

use vstd::prelude::*;

use crate::encoding::decode_bytes;
use crate::parser::{no_chars, parse, spec_parse, yes_chars, FormatError};
use crate::rawtext::{
    extract_duplicate_values, extract_entry_text, opt_model, spec_entry_text,
    spec_extract_duplicates, strings_model,
};
use crate::search::{contains_each, contains_sub};
use crate::value::{
    entries_get, entries_insert, entries_model, lemma_vm_pairs, obj_get, obj_insert, vm_wf, Value,
    ValueModel,
};

verus! {

/// Parsed save data held in memory for the session: the primary document,
/// the raw primary bytes (several queries re-derive information the tree
/// lost), and the optional secondary document.
#[derive(Debug)]
pub struct ParsedSave {
    pub gamestate: Value,
    pub gamestate_bytes: Vec<u8>,
    pub meta: Option<Value>,
}

/// Entry list of the primary document.
pub open spec fn gs_entries(s: ParsedSave) -> Seq<(Seq<char>, ValueModel)> {
    match s.gamestate.vm() {
        ValueModel::Obj(es) => es,
        _ => Seq::empty(),
    }
}

/// Model of the secondary document.
pub open spec fn meta_model(s: ParsedSave) -> Option<ValueModel> {
    match s.meta {
        Some(m) => Some(m.vm()),
        None => None,
    }
}

impl ParsedSave {
    /// Both documents are well-formed objects and the raw bytes are the
    /// ones the primary document was parsed from.
    pub open spec fn wf(self) -> bool {
        &&& self.gamestate.vm() is Obj
        &&& vm_wf(self.gamestate.vm())
        &&& spec_parse(self.gamestate_bytes@) == Some(self.gamestate.vm())
        &&& match self.meta {
            Some(m) => m.vm() is Obj && vm_wf(m.vm()),
            None => true,
        }
    }

    /// Parse the payloads once and retain them; fails exactly when a
    /// payload's text breaks the grammar.
    pub fn load(gamestate_bytes: Vec<u8>, meta_bytes: Option<Vec<u8>>) -> (r: Result<
        ParsedSave,
        FormatError,
    >)
        ensures
            match r {
                Ok(s) => {
                    &&& s.wf()
                    &&& s.gamestate_bytes@ == gamestate_bytes@
                    &&& spec_parse(gamestate_bytes@) == Some(s.gamestate.vm())
                    &&& match (s.meta, meta_bytes) {
                        (Some(m), Some(mb)) => spec_parse(mb@) == Some(m.vm()),
                        (None, None) => true,
                        _ => false,
                    }
                },
                Err(_) => spec_parse(gamestate_bytes@) is None || (meta_bytes matches Some(mb)
                    && spec_parse(mb@) is None),
            },
    {
        let gamestate = match parse(&gamestate_bytes) {
            Ok(v) => v,
            Err(e) => {
                return Err(e);
            },
        };
        let meta = match meta_bytes {
            Some(mb) => match parse(&mb) {
                Ok(v) => Some(v),
                Err(e) => {
                    return Err(e);
                },
            },
            None => None,
        };
        Ok(ParsedSave { gamestate, gamestate_bytes, meta })
    }
}

/// The metadata entries every extraction result opens with.
pub open spec fn meta_entries_model() -> Seq<(Seq<char>, ValueModel)> {
    seq![
        ("schema_version"@, ValueModel::Num("1"@)),
        ("tool_version"@, ValueModel::Str("0.1.0"@)),
        ("game"@, ValueModel::Str("stellaris"@)),
    ]
}

/// Fold of the requested section names over an accumulator object: the
/// reserved name takes the secondary document, known names take their
/// section, unknown names are silently omitted.
pub open spec fn sections_fold(
    acc: Seq<(Seq<char>, ValueModel)>,
    gs: Seq<(Seq<char>, ValueModel)>,
    meta: Option<ValueModel>,
    sections: Seq<Seq<char>>,
    i: int,
) -> Seq<(Seq<char>, ValueModel)>
    decreases sections.len() - i,
{
    if i < 0 || i >= sections.len() {
        acc
    } else {
        let name = sections[i];
        let acc2 = if name == "meta"@ {
            match meta {
                Some(m) => obj_insert(acc, name, m),
                None => acc,
            }
        } else {
            match obj_get(gs, name) {
                Some(v) => obj_insert(acc, name, v),
                None => acc,
            }
        };
        sections_fold(acc2, gs, meta, sections, i + 1)
    }
}

/// Result of `extract_sections`.
pub open spec fn spec_extract_sections(
    gs: Seq<(Seq<char>, ValueModel)>,
    meta: Option<ValueModel>,
    sections: Seq<Seq<char>>,
) -> ValueModel {
    ValueModel::Obj(sections_fold(meta_entries_model(), gs, meta, sections, 0))
}

impl ParsedSave {
    /// An object holding the version metadata plus the requested sections
    /// that exist; unknown names are silently omitted.
    #[verifier::loop_isolation(false)]
    pub fn extract_sections(&self, sections: &Vec<String>) -> (r: Value)
        ensures
            r.vm() == spec_extract_sections(
                gs_entries(*self),
                meta_model(*self),
                strings_model(sections@),
            ),
    {
        let ghost gs = gs_entries(*self);
        let ghost metam = meta_model(*self);
        let ghost secs = strings_model(sections@);
        let mut out: Vec<(String, Value)> = Vec::new();
        out.push(("schema_version".to_owned(), Value::Num("1".to_owned())));
        out.push(("tool_version".to_owned(), Value::Str("0.1.0".to_owned())));
        out.push(("game".to_owned(), Value::Str("stellaris".to_owned())));
        proof {
            assert(entries_model(out@) =~= meta_entries_model());
        }
        let meta_name = "meta".to_owned();
        let mut i: usize = 0;
        while i < sections.len()
            invariant
                0 <= i <= sections@.len(),
                secs.len() == sections@.len(),
                meta_name@ == "meta"@,
                sections_fold(entries_model(out@), gs, metam, secs, i as int) == sections_fold(
                    meta_entries_model(),
                    gs,
                    metam,
                    secs,
                    0,
                ),
            decreases sections@.len() - i,
        {
            let ghost acc0 = entries_model(out@);
            proof {
                assert(secs[i as int] == sections@[i as int]@);
            }
            let name = sections[i].clone();
            if name == meta_name {
                match &self.meta {
                    Some(m) => {
                        let mv = m.duplicate();
                        entries_insert(&mut out, name, mv);
                    },
                    None => {},
                }
            } else {
                match &self.gamestate {
                    Value::Object(o) => {
                        proof {
                            lemma_vm_pairs(o@);
                        }
                        match entries_get(o, &name) {
                            Some(v) => {
                                let dv = v.duplicate();
                                entries_insert(&mut out, name, dv);
                            },
                            None => {},
                        }
                    },
                    _ => {
                        proof {
                            assert(obj_get(gs, secs[i as int]) is None);
                        }
                    },
                }
            }
            proof {
                assert(sections_fold(acc0, gs, metam, secs, i as int) == sections_fold(
                    entries_model(out@),
                    gs,
                    metam,
                    secs,
                    i + 1,
                ));
            }
            i += 1;
        }
        let v = Value::Object(out);
        proof {
            lemma_vm_pairs(v->Object_0@);
        }
        v
    }
}

/// Result of `get_entry`: the value at `section[key]` and a found flag;
/// a missing section or key yields the null value and `false`.
pub open spec fn spec_get_entry(
    gs: Seq<(Seq<char>, ValueModel)>,
    section: Seq<char>,
    key: Seq<char>,
) -> (ValueModel, bool) {
    match obj_get(gs, section) {
        Some(ValueModel::Obj(es)) => match obj_get(es, key) {
            Some(v) => (v, true),
            None => (ValueModel::Null, false),
        },
        _ => (ValueModel::Null, false),
    }
}

/// Fold of the requested field names over an accumulator object: fields
/// present on the source entry are copied over, missing ones are skipped.
pub open spec fn fields_fold(
    src: Seq<(Seq<char>, ValueModel)>,
    fields: Seq<Seq<char>>,
    acc: Seq<(Seq<char>, ValueModel)>,
    i: int,
) -> Seq<(Seq<char>, ValueModel)>
    decreases fields.len() - i,
{
    if i < 0 || i >= fields.len() {
        acc
    } else {
        let acc2 = match obj_get(src, fields[i]) {
            Some(v) => obj_insert(acc, fields[i], v),
            None => acc,
        };
        fields_fold(src, fields, acc2, i + 1)
    }
}

/// Projection of one entry for `get_entries`: with a field list, an object
/// entry keeps only the requested fields plus its key tag; anything else
/// is wrapped with its key tag and full value.
pub open spec fn spec_project(
    entry: ValueModel,
    key: Seq<char>,
    fields: Option<Seq<Seq<char>>>,
) -> ValueModel {
    match fields {
        Some(fl) => match entry {
            ValueModel::Obj(es) => ValueModel::Obj(
                fields_fold(es, fl, seq![("_key"@, ValueModel::Str(key))], 0),
            ),
            _ => ValueModel::Obj(
                seq![("_key"@, ValueModel::Str(key)), ("_value"@, entry)],
            ),
        },
        None => ValueModel::Obj(seq![("_key"@, ValueModel::Str(key)), ("_value"@, entry)]),
    }
}

/// Result of `get_entries`: the projection of each requested key that the
/// section holds, in request order; missing keys are skipped silently.
pub open spec fn entries_fold(
    sec: Seq<(Seq<char>, ValueModel)>,
    keys: Seq<Seq<char>>,
    fields: Option<Seq<Seq<char>>>,
    i: int,
) -> Seq<ValueModel>
    decreases keys.len() - i,
{
    if i < 0 || i >= keys.len() {
        Seq::empty()
    } else {
        match obj_get(sec, keys[i]) {
            Some(v) => seq![spec_project(v, keys[i], fields)] + entries_fold(
                sec,
                keys,
                fields,
                i + 1,
            ),
            None => entries_fold(sec, keys, fields, i + 1),
        }
    }
}

pub open spec fn spec_get_entries(
    gs: Seq<(Seq<char>, ValueModel)>,
    section: Seq<char>,
    keys: Seq<Seq<char>>,
    fields: Option<Seq<Seq<char>>>,
) -> Seq<ValueModel> {
    match obj_get(gs, section) {
        Some(ValueModel::Obj(es)) => entries_fold(es, keys, fields, 0),
        _ => Seq::empty(),
    }
}

/// Model of an optional field list.
pub open spec fn opt_strings(o: Option<Vec<String>>) -> Option<Seq<Seq<char>>> {
    match o {
        Some(fl) => Some(strings_model(fl@)),
        None => None,
    }
}

/// Models of a value list.
pub open spec fn values_model(vs: Seq<Value>) -> Seq<ValueModel> {
    Seq::new(vs.len(), |i: int| vs[i].vm())
}

/// Copy the fields of `src` named in `fields` into `out`.
#[verifier::loop_isolation(false)]
fn project_into(
    out: &mut Vec<(String, Value)>,
    src: &Vec<(String, Value)>,
    fields: &Vec<String>,
)
    ensures
        entries_model(final(out)@) == fields_fold(
            entries_model(src@),
            strings_model(fields@),
            entries_model(old(out)@),
            0,
        ),
{
    let ghost srcm = entries_model(src@);
    let ghost fls = strings_model(fields@);
    let mut i: usize = 0;
    while i < fields.len()
        invariant
            0 <= i <= fields@.len(),
            fls.len() == fields@.len(),
            fields_fold(srcm, fls, entries_model(out@), i as int) == fields_fold(
                srcm,
                fls,
                entries_model(old(out)@),
                0,
            ),
        decreases fields@.len() - i,
    {
        let ghost acc0 = entries_model(out@);
        proof {
            assert(fls[i as int] == fields@[i as int]@);
        }
        let name = fields[i].clone();
        match entries_get(src, &name) {
            Some(v) => {
                let dv = v.duplicate();
                entries_insert(out, name, dv);
            },
            None => {},
        }
        proof {
            assert(fields_fold(srcm, fls, acc0, i as int) == fields_fold(
                srcm,
                fls,
                entries_model(out@),
                i + 1,
            ));
        }
        i += 1;
    }
}

/// Build the projection of one entry.
fn project_entry(entry: &Value, key: &String, fields: &Option<Vec<String>>) -> (r: Value)
    ensures
        r.vm() == spec_project(entry.vm(), key@, opt_strings(*fields)),
{
    match fields {
        Some(fl) => match entry {
            Value::Object(es) => {
                proof {
                    lemma_vm_pairs(es@);
                }
                let mut out: Vec<(String, Value)> = Vec::new();
                out.push(("_key".to_owned(), Value::Str(key.clone())));
                proof {
                    assert(entries_model(out@) =~= seq![("_key"@, ValueModel::Str(key@))]);
                }
                project_into(&mut out, es, fl);
                let v = Value::Object(out);
                proof {
                    lemma_vm_pairs(v->Object_0@);
                }
                v
            },
            _ => {
                let mut out: Vec<(String, Value)> = Vec::new();
                out.push(("_key".to_owned(), Value::Str(key.clone())));
                out.push(("_value".to_owned(), entry.duplicate()));
                let v = Value::Object(out);
                proof {
                    lemma_vm_pairs(v->Object_0@);
                    assert(entries_model(v->Object_0@) =~= seq![
                        ("_key"@, ValueModel::Str(key@)),
                        ("_value"@, entry.vm()),
                    ]);
                }
                v
            },
        },
        None => {
            let mut out: Vec<(String, Value)> = Vec::new();
            out.push(("_key".to_owned(), Value::Str(key.clone())));
            out.push(("_value".to_owned(), entry.duplicate()));
            let v = Value::Object(out);
            proof {
                lemma_vm_pairs(v->Object_0@);
                assert(entries_model(v->Object_0@) =~= seq![
                    ("_key"@, ValueModel::Str(key@)),
                    ("_value"@, entry.vm()),
                ]);
            }
            v
        },
    }
}

impl ParsedSave {
    /// The entry at `section[key]` with a found flag; null and `false`
    /// when the section or the key is absent.
    pub fn get_entry(&self, section: &String, key: &String) -> (r: (Value, bool))
        ensures
            ({
                let s = spec_get_entry(gs_entries(*self), section@, key@);
                r.0.vm() == s.0 && r.1 == s.1
            }),
    {
        match &self.gamestate {
            Value::Object(o) => {
                proof {
                    lemma_vm_pairs(o@);
                }
                match entries_get(o, section) {
                    Some(v) => match v {
                        Value::Object(inner) => {
                            proof {
                                lemma_vm_pairs(inner@);
                            }
                            match entries_get(inner, key) {
                                Some(e) => (e.duplicate(), true),
                                None => (Value::Null, false),
                            }
                        },
                        _ => (Value::Null, false),
                    },
                    None => (Value::Null, false),
                }
            },
            _ => (Value::Null, false),
        }
    }

    /// The projections of the requested keys that exist in the section,
    /// in request order; missing keys are skipped silently.
    #[verifier::loop_isolation(false)]
    pub fn get_entries(&self, section: &String, keys: &Vec<String>, fields: &Option<Vec<String>>)
        -> (r: Vec<Value>)
        ensures
            values_model(r@) == spec_get_entries(
                gs_entries(*self),
                section@,
                strings_model(keys@),
                opt_strings(*fields),
            ),
    {
        let ghost gs = gs_entries(*self);
        let ghost keysm = strings_model(keys@);
        let ghost flm = opt_strings(*fields);
        let mut out: Vec<Value> = Vec::new();
        let sec = match &self.gamestate {
            Value::Object(o) => {
                proof {
                    lemma_vm_pairs(o@);
                }
                match entries_get(o, section) {
                    Some(v) => match v {
                        Value::Object(inner) => {
                            proof {
                                lemma_vm_pairs(inner@);
                            }
                            Some(inner)
                        },
                        _ => None,
                    },
                    None => None,
                }
            },
            _ => None,
        };
        match sec {
            None => {
                proof {
                    assert(values_model(out@) =~= Seq::<ValueModel>::empty());
                }
                out
            },
            Some(inner) => {
                let ghost secm = entries_model(inner@);
                let mut i: usize = 0;
                while i < keys.len()
                    invariant
                        0 <= i <= keys@.len(),
                        keysm.len() == keys@.len(),
                        secm == entries_model(inner@),
                        spec_get_entries(gs, section@, keysm, flm) == values_model(out@)
                            + entries_fold(secm, keysm, flm, i as int),
                    decreases keys@.len() - i,
                {
                    let ghost out0 = out@;
                    proof {
                        assert(keysm[i as int] == keys@[i as int]@);
                    }
                    let name = keys[i].clone();
                    match entries_get(inner, &name) {
                        Some(v) => {
                            let pv = project_entry(v, &name, fields);
                            out.push(pv);
                            proof {
                                assert(values_model(out@) =~= values_model(out0).push(
                                    spec_project(v.vm(), name@, flm),
                                ));
                                assert(values_model(out0) + (seq![spec_project(
                                    v.vm(),
                                    name@,
                                    flm,
                                )] + entries_fold(secm, keysm, flm, i + 1)) =~= values_model(
                                    out@,
                                ) + entries_fold(secm, keysm, flm, i + 1));
                            }
                        },
                        None => {},
                    }
                    i += 1;
                }
                proof {
                    assert(entries_fold(secm, keysm, flm, keys@.len() as int) =~= Seq::<
                        ValueModel,
                    >::empty());
                    assert(values_model(out@) + Seq::<ValueModel>::empty() =~= values_model(
                        out@,
                    ));
                }
                out
            },
        }
    }
}

/// Saturation at the machine word: counts cap there instead of wrapping.
pub open spec fn sat(n: nat) -> nat {
    if n > usize::MAX as nat {
        usize::MAX as nat
    } else {
        n
    }
}

/// Occurrences of the key `k` among the object entries of the subtree of
/// `v`, at any depth.
pub open spec fn count_key(v: ValueModel, k: Seq<char>) -> nat
    decreases v, 0int,
{
    match v {
        ValueModel::Obj(es) => count_entries(es, k, 0),
        ValueModel::Arr(xs) => count_list(xs, k, 0),
        _ => 0,
    }
}

pub open spec fn count_entries(es: Seq<(Seq<char>, ValueModel)>, k: Seq<char>, i: int) -> nat
    decreases es, es.len() - i,
{
    if i < 0 || i >= es.len() {
        0
    } else {
        (if es[i].0 == k {
            1nat
        } else {
            0nat
        }) + count_key(es[i].1, k) + count_entries(es, k, i + 1)
    }
}

pub open spec fn count_list(xs: Seq<ValueModel>, k: Seq<char>, i: int) -> nat
    decreases xs, xs.len() - i,
{
    if i < 0 || i >= xs.len() {
        0
    } else {
        count_key(xs[i], k) + count_list(xs, k, i + 1)
    }
}

/// Total occurrences of `k` inside the values of the top-level sections.
pub open spec fn count_sections(gs: Seq<(Seq<char>, ValueModel)>, k: Seq<char>, i: int) -> nat
    decreases gs.len() - i,
{
    if i < 0 || i >= gs.len() {
        0
    } else {
        count_key(gs[i].1, k) + count_sections(gs, k, i + 1)
    }
}

/// Add with saturation at the machine word.
fn sat_add(a: usize, b: usize) -> (r: usize)
    ensures
        r as nat == sat(a as nat + b as nat),
{
    if a <= usize::MAX - b {
        a + b
    } else {
        usize::MAX
    }
}

/// Occurrences of `k` in the subtree of `v`, saturated at the machine
/// word.
#[verifier::loop_isolation(false)]
fn count_key_exec(v: &Value, k: &String) -> (r: usize)
    ensures
        r as nat == sat(count_key(v.vm(), k@)),
    decreases v,
{
    match v {
        Value::Object(o) => {
            proof {
                lemma_vm_pairs(o@);
            }
            let ghost es = entries_model(o@);
            let mut acc: usize = 0;
            let mut i: usize = 0;
            while i < o.len()
                invariant
                    0 <= i <= o@.len(),
                    es == entries_model(o@),
                    es.len() == o@.len(),
                    sat(acc as nat + count_entries(es, k@, i as int)) == sat(
                        count_entries(es, k@, 0),
                    ),
                decreases o@.len() - i,
            {
                let ghost acc0 = acc as nat;
                if o[i].0 == *k {
                    acc = sat_add(acc, 1);
                }
                proof {
                    assert(decreases_to!(o => o@));
                    assert(decreases_to!(o@ => o@[i as int]));
                    assert(decreases_to!(o@[i as int] => o@[i as int].1));
                }
                let c = count_key_exec(&o[i].1, k);
                acc = sat_add(acc, c);
                proof {
                    let head: nat = if es[i as int].0 == k@ {
                        1
                    } else {
                        0
                    };
                    assert(count_entries(es, k@, i as int) == head + count_key(es[i as int].1, k@)
                        + count_entries(es, k@, i + 1));
                    assert(es[i as int].1 == o@[i as int].1.vm());
                }
                i += 1;
            }
            acc
        },
        Value::Array(a) => {
            proof {
                crate::value::lemma_vm_list(a@);
            }
            let ghost xs = crate::value::arr_model(a@);
            let mut acc: usize = 0;
            let mut i: usize = 0;
            while i < a.len()
                invariant
                    0 <= i <= a@.len(),
                    xs == crate::value::arr_model(a@),
                    xs.len() == a@.len(),
                    sat(acc as nat + count_list(xs, k@, i as int)) == sat(count_list(xs, k@, 0)),
                decreases a@.len() - i,
            {
                proof {
                    assert(decreases_to!(a => a@));
                    assert(decreases_to!(a@ => a@[i as int]));
                }
                let c = count_key_exec(&a[i], k);
                acc = sat_add(acc, c);
                proof {
                    assert(count_list(xs, k@, i as int) == count_key(xs[i as int], k@)
                        + count_list(xs, k@, i + 1));
                    assert(xs[i as int] == a@[i as int].vm());
                }
                i += 1;
            }
            acc
        },
        _ => 0,
    }
}

/// Pairs of a name list with per-name counts.
pub open spec fn counts_model(cs: Seq<(String, usize)>) -> Seq<(Seq<char>, nat)> {
    Seq::new(cs.len(), |i: int| (cs[i].0@, cs[i].1 as nat))
}

impl ParsedSave {
    /// For each requested name, the number of object entries under any
    /// section, at any depth, keyed by that name (saturated at the machine
    /// word).
    #[verifier::loop_isolation(false)]
    pub fn count_keys(&self, keys: &Vec<String>) -> (r: Vec<(String, usize)>)
        ensures
            r@.len() == keys@.len(),
            forall|t: int|
                0 <= t < keys@.len() ==> #[trigger] counts_model(r@)[t] == (
                keys@[t]@,
                sat(count_sections(gs_entries(*self), keys@[t]@, 0)),
            ),
    {
        let ghost gs = gs_entries(*self);
        let mut out: Vec<(String, usize)> = Vec::new();
        let mut t: usize = 0;
        while t < keys.len()
            invariant
                0 <= t <= keys@.len(),
                out@.len() == t,
                forall|m: int|
                    0 <= m < t ==> #[trigger] counts_model(out@)[m] == (
                    keys@[m]@,
                    sat(count_sections(gs, keys@[m]@, 0)),
                ),
            decreases keys@.len() - t,
        {
            let name = keys[t].clone();
            let mut acc: usize = 0;
            match &self.gamestate {
                Value::Object(o) => {
                    proof {
                        lemma_vm_pairs(o@);
                    }
                    let ghost es = entries_model(o@);
                    let mut i: usize = 0;
                    while i < o.len()
                        invariant
                            0 <= i <= o@.len(),
                            es == entries_model(o@),
                            es.len() == o@.len(),
                            name@ == keys@[t as int]@,
                            sat(acc as nat + count_sections(es, name@, i as int)) == sat(
                                count_sections(es, name@, 0),
                            ),
                        decreases o@.len() - i,
                    {
                        let c = count_key_exec(&o[i].1, &name);
                        acc = sat_add(acc, c);
                        proof {
                            assert(count_sections(es, name@, i as int) == count_key(
                                es[i as int].1,
                                name@,
                            ) + count_sections(es, name@, i + 1));
                            assert(es[i as int].1 == o@[i as int].1.vm());
                        }
                        i += 1;
                    }
                },
                _ => {
                    proof {
                        assert(count_sections(gs, name@, 0) == 0);
                    }
                },
            }
            let ghost out0 = out@;
            proof {
                assert(acc as nat == sat(count_sections(gs, name@, 0)));
            }
            out.push((name, acc));
            proof {
                assert forall|m: int| 0 <= m < t + 1 implies #[trigger] counts_model(out@)[m] == (
                    keys@[m]@,
                    sat(count_sections(gs, keys@[m]@, 0)),
                ) by {
                    if m < t {
                        assert(out@[m] == out0[m]);
                        assert(counts_model(out0)[m] == (
                            keys@[m]@,
                            sat(count_sections(gs, keys@[m]@, 0)),
                        ));
                    }
                }
            }
            t += 1;
        }
        out
    }
}

/// Canonical scalar rendering for key/value matching: strings verbatim,
/// booleans as `yes`/`no`, numbers as their decimal text.
pub open spec fn spec_render_kv(v: ValueModel) -> Option<Seq<char>> {
    match v {
        ValueModel::Str(s) => Some(s),
        ValueModel::Num(t) => Some(t),
        ValueModel::Bool(b) => Some(
            if b {
                yes_chars()
            } else {
                no_chars()
            },
        ),
        _ => None,
    }
}

/// Whether the subtree of `v` holds an object entry keyed `k` whose scalar
/// rendering is `val`, at any depth.
pub open spec fn kv_found(v: ValueModel, k: Seq<char>, val: Seq<char>) -> bool
    decreases v, 0int,
{
    match v {
        ValueModel::Obj(es) => kv_entries(es, k, val, 0),
        ValueModel::Arr(xs) => kv_list(xs, k, val, 0),
        _ => false,
    }
}

pub open spec fn kv_entries(
    es: Seq<(Seq<char>, ValueModel)>,
    k: Seq<char>,
    val: Seq<char>,
    i: int,
) -> bool
    decreases es, es.len() - i,
{
    if i < 0 || i >= es.len() {
        false
    } else {
        ||| (es[i].0 == k && spec_render_kv(es[i].1) == Some(val))
        ||| kv_found(es[i].1, k, val)
        ||| kv_entries(es, k, val, i + 1)
    }
}

pub open spec fn kv_list(xs: Seq<ValueModel>, k: Seq<char>, val: Seq<char>, i: int) -> bool
    decreases xs, xs.len() - i,
{
    if i < 0 || i >= xs.len() {
        false
    } else {
        kv_found(xs[i], k, val) || kv_list(xs, k, val, i + 1)
    }
}

/// Whether some section's value holds such an entry.
pub open spec fn kv_sections(
    gs: Seq<(Seq<char>, ValueModel)>,
    k: Seq<char>,
    val: Seq<char>,
    i: int,
) -> bool
    decreases gs.len() - i,
{
    if i < 0 || i >= gs.len() {
        false
    } else {
        kv_found(gs[i].1, k, val) || kv_sections(gs, k, val, i + 1)
    }
}

/// Whether this scalar value renders as `val`.
fn render_matches(v: &Value, val: &String) -> (r: bool)
    ensures
        r == (spec_render_kv(v.vm()) == Some(val@)),
{
    match v {
        Value::Str(s) => *s == *val,
        Value::Num(t) => *t == *val,
        Value::Bool(b) => {
            if *b {
                let y = "yes".to_owned();
                proof {
                    reveal_strlit("yes");
                    assert("yes"@ =~= yes_chars());
                }
                y == *val
            } else {
                let n = "no".to_owned();
                proof {
                    reveal_strlit("no");
                    assert("no"@ =~= no_chars());
                }
                n == *val
            }
        },
        _ => false,
    }
}

/// Whether the subtree of `v` holds an entry `k` rendering as `val`.
#[verifier::loop_isolation(false)]
fn kv_found_exec(v: &Value, k: &String, val: &String) -> (r: bool)
    ensures
        r == kv_found(v.vm(), k@, val@),
    decreases v,
{
    match v {
        Value::Object(o) => {
            proof {
                lemma_vm_pairs(o@);
            }
            let ghost es = entries_model(o@);
            let mut i: usize = 0;
            while i < o.len()
                invariant
                    0 <= i <= o@.len(),
                    es == entries_model(o@),
                    es.len() == o@.len(),
                    kv_entries(es, k@, val@, 0) == kv_entries(es, k@, val@, i as int),
                decreases o@.len() - i,
            {
                if o[i].0 == *k && render_matches(&o[i].1, val) {
                    return true;
                }
                proof {
                    assert(decreases_to!(o => o@));
                    assert(decreases_to!(o@ => o@[i as int]));
                    assert(decreases_to!(o@[i as int] => o@[i as int].1));
                }
                if kv_found_exec(&o[i].1, k, val) {
                    return true;
                }
                proof {
                    assert(es[i as int].1 == o@[i as int].1.vm());
                    assert(es[i as int].0 == o@[i as int].0@);
                }
                i += 1;
            }
            false
        },
        Value::Array(a) => {
            proof {
                crate::value::lemma_vm_list(a@);
            }
            let ghost xs = crate::value::arr_model(a@);
            let mut i: usize = 0;
            while i < a.len()
                invariant
                    0 <= i <= a@.len(),
                    xs == crate::value::arr_model(a@),
                    xs.len() == a@.len(),
                    kv_list(xs, k@, val@, 0) == kv_list(xs, k@, val@, i as int),
                decreases a@.len() - i,
            {
                proof {
                    assert(decreases_to!(a => a@));
                    assert(decreases_to!(a@ => a@[i as int]));
                }
                if kv_found_exec(&a[i], k, val) {
                    return true;
                }
                proof {
                    assert(xs[i as int] == a@[i as int].vm());
                }
                i += 1;
            }
            false
        },
        _ => false,
    }
}

/// Pairs of a joined `key=value` name with a match flag.
pub open spec fn matches_model(ms: Seq<(String, bool)>) -> Seq<(Seq<char>, bool)> {
    Seq::new(ms.len(), |i: int| (ms[i].0@, ms[i].1))
}

impl ParsedSave {
    /// For each requested `(key, value)` pair, whether any section's
    /// subtree holds an object entry with that key whose scalar rendering
    /// equals the value; results are keyed `key=value`.
    #[verifier::loop_isolation(false)]
    pub fn contains_kv(&self, pairs: &Vec<(String, String)>) -> (r: Vec<(String, bool)>)
        ensures
            r@.len() == pairs@.len(),
            forall|t: int|
                0 <= t < pairs@.len() ==> #[trigger] matches_model(r@)[t] == (
                pairs@[t].0@ + seq!['='] + pairs@[t].1@,
                kv_sections(gs_entries(*self), pairs@[t].0@, pairs@[t].1@, 0),
            ),
    {
        let ghost gs = gs_entries(*self);
        let mut out: Vec<(String, bool)> = Vec::new();
        let mut t: usize = 0;
        while t < pairs.len()
            invariant
                0 <= t <= pairs@.len(),
                out@.len() == t,
                forall|m: int|
                    0 <= m < t ==> #[trigger] matches_model(out@)[m] == (
                    pairs@[m].0@ + seq!['='] + pairs@[m].1@,
                    kv_sections(gs, pairs@[m].0@, pairs@[m].1@, 0),
                ),
            decreases pairs@.len() - t,
        {
            let key = pairs[t].0.clone();
            let val = pairs[t].1.clone();
            let mut found = false;
            match &self.gamestate {
                Value::Object(o) => {
                    proof {
                        lemma_vm_pairs(o@);
                    }
                    let ghost es = entries_model(o@);
                    let mut i: usize = 0;
                    while i < o.len()
                        invariant
                            0 <= i <= o@.len(),
                            es == entries_model(o@),
                            es.len() == o@.len(),
                            key@ == pairs@[t as int].0@,
                            val@ == pairs@[t as int].1@,
                            found == false,
                            kv_sections(es, key@, val@, 0) == kv_sections(
                                es,
                                key@,
                                val@,
                                i as int,
                            ),
                        decreases o@.len() - i,
                    {
                        if kv_found_exec(&o[i].1, &key, &val) {
                            proof {
                                assert(es[i as int].1 == o@[i as int].1.vm());
                            }
                            found = true;
                            break ;
                        }
                        proof {
                            assert(es[i as int].1 == o@[i as int].1.vm());
                        }
                        i += 1;
                    }
                },
                _ => {},
            }
            let mut joined = key;
            joined.append("=");
            joined.append(val.as_str());
            proof {
                reveal_strlit("=");
                assert("="@ =~= seq!['=']);
            }
            let ghost out0 = out@;
            out.push((joined, found));
            proof {
                assert forall|m: int| 0 <= m < t + 1 implies #[trigger] matches_model(out@)[m]
                    == (
                    pairs@[m].0@ + seq!['='] + pairs@[m].1@,
                    kv_sections(gs, pairs@[m].0@, pairs@[m].1@, 0),
                ) by {
                    if m < t {
                        assert(out@[m] == out0[m]);
                        assert(matches_model(out0)[m] == (
                            pairs@[m].0@ + seq!['='] + pairs@[m].1@,
                            kv_sections(gs, pairs@[m].0@, pairs@[m].1@, 0),
                        ));
                    }
                }
            }
            t += 1;
        }
        out
    }

    /// For each token, whether its byte form occurs anywhere in the raw
    /// primary payload.
    #[verifier::loop_isolation(false)]
    pub fn contains_tokens(&self, tokens: &Vec<String>) -> (r: Vec<(String, bool)>)
        ensures
            r@.len() == tokens@.len(),
            forall|t: int|
                0 <= t < tokens@.len() ==> #[trigger] matches_model(r@)[t] == (
                tokens@[t]@,
                contains_sub(
                    self.gamestate_bytes@,
                    vstd::utf8::encode_utf8(tokens@[t]@),
                ),
            ),
    {
        let mut needles: Vec<Vec<u8>> = Vec::new();
        let mut t: usize = 0;
        while t < tokens.len()
            invariant
                0 <= t <= tokens@.len(),
                needles@.len() == t,
                forall|m: int|
                    0 <= m < t ==> #[trigger] needles@[m]@ == vstd::utf8::encode_utf8(
                    tokens@[m]@,
                ),
            decreases tokens@.len() - t,
        {
            let nb = tokens[t].as_str().as_bytes_vec();
            needles.push(nb);
            t += 1;
        }
        let flags = contains_each(&self.gamestate_bytes, &needles);
        let mut out: Vec<(String, bool)> = Vec::new();
        let mut m: usize = 0;
        while m < tokens.len()
            invariant
                0 <= m <= tokens@.len(),
                out@.len() == m,
                flags@.len() == tokens@.len(),
                needles@.len() == tokens@.len(),
                forall|q: int|
                    0 <= q < tokens@.len() ==> #[trigger] needles@[q]@ == vstd::utf8::encode_utf8(
                    tokens@[q]@,
                ),
                forall|q: int|
                    0 <= q < tokens@.len() ==> #[trigger] flags@[q] == contains_sub(
                    self.gamestate_bytes@,
                    needles@[q]@,
                ),
                forall|q: int|
                    0 <= q < m ==> #[trigger] matches_model(out@)[q] == (
                    tokens@[q]@,
                    contains_sub(
                        self.gamestate_bytes@,
                        vstd::utf8::encode_utf8(tokens@[q]@),
                    ),
                ),
            decreases tokens@.len() - m,
        {
            let ghost out0 = out@;
            out.push((tokens[m].clone(), flags[m]));
            proof {
                assert forall|q: int| 0 <= q < m + 1 implies #[trigger] matches_model(out@)[q]
                    == (
                    tokens@[q]@,
                    contains_sub(
                        self.gamestate_bytes@,
                        vstd::utf8::encode_utf8(tokens@[q]@),
                    ),
                ) by {
                    if q < m {
                        assert(out@[q] == out0[q]);
                        assert(matches_model(out0)[q] == (
                            tokens@[q]@,
                            contains_sub(
                                self.gamestate_bytes@,
                                vstd::utf8::encode_utf8(tokens@[q]@),
                            ),
                        ));
                    }
                }
            }
            m += 1;
        }
        out
    }
}

/// Summary of one section entry: its key as `id` plus the requested
/// fields present on it.
pub open spec fn spec_summary(
    key: Seq<char>,
    entry: ValueModel,
    fields: Seq<Seq<char>>,
) -> ValueModel {
    match entry {
        ValueModel::Obj(es) => ValueModel::Obj(
            fields_fold(es, fields, seq![("id"@, ValueModel::Str(key))], 0),
        ),
        _ => ValueModel::Obj(seq![("id"@, ValueModel::Str(key))]),
    }
}

/// Result of `get_country_summaries`: one summary per entry of the
/// `country` section, in that section's order.
pub open spec fn spec_summaries(
    ces: Seq<(Seq<char>, ValueModel)>,
    fields: Seq<Seq<char>>,
    i: int,
) -> Seq<ValueModel>
    decreases ces.len() - i,
{
    if i < 0 || i >= ces.len() {
        Seq::empty()
    } else {
        seq![spec_summary(ces[i].0, ces[i].1, fields)] + spec_summaries(ces, fields, i + 1)
    }
}

pub open spec fn spec_get_country_summaries(
    gs: Seq<(Seq<char>, ValueModel)>,
    fields: Seq<Seq<char>>,
) -> Seq<ValueModel> {
    match obj_get(gs, "country"@) {
        Some(ValueModel::Obj(ces)) => spec_summaries(ces, fields, 0),
        _ => Seq::empty(),
    }
}

impl ParsedSave {
    /// One lightweight object per entry of the `country` section: the
    /// entry's key as `id` plus the requested fields it holds.
    #[verifier::loop_isolation(false)]
    pub fn get_country_summaries(&self, fields: &Vec<String>) -> (r: Vec<Value>)
        ensures
            values_model(r@) == spec_get_country_summaries(
                gs_entries(*self),
                strings_model(fields@),
            ),
    {
        let ghost gs = gs_entries(*self);
        let ghost flm = strings_model(fields@);
        let mut out: Vec<Value> = Vec::new();
        let country = "country".to_owned();
        let sec = match &self.gamestate {
            Value::Object(o) => {
                proof {
                    lemma_vm_pairs(o@);
                }
                match entries_get(o, &country) {
                    Some(v) => match v {
                        Value::Object(inner) => {
                            proof {
                                lemma_vm_pairs(inner@);
                            }
                            Some(inner)
                        },
                        _ => None,
                    },
                    None => None,
                }
            },
            _ => None,
        };
        match sec {
            None => {
                proof {
                    assert(values_model(out@) =~= Seq::<ValueModel>::empty());
                }
                out
            },
            Some(inner) => {
                let ghost ces = entries_model(inner@);
                let mut i: usize = 0;
                while i < inner.len()
                    invariant
                        0 <= i <= inner@.len(),
                        ces == entries_model(inner@),
                        ces.len() == inner@.len(),
                        flm.len() == fields@.len(),
                        spec_summaries(ces, flm, 0) == values_model(out@) + spec_summaries(
                            ces,
                            flm,
                            i as int,
                        ),
                    decreases inner@.len() - i,
                {
                    let ghost out0 = out@;
                    let key = inner[i].0.clone();
                    let mut acc: Vec<(String, Value)> = Vec::new();
                    acc.push(("id".to_owned(), Value::Str(key)));
                    proof {
                        assert(entries_model(acc@) =~= seq![(
                            "id"@,
                            ValueModel::Str(inner@[i as int].0@),
                        )]);
                    }
                    match &inner[i].1 {
                        Value::Object(es) => {
                            proof {
                                lemma_vm_pairs(es@);
                            }
                            project_into(&mut acc, es, fields);
                        },
                        _ => {},
                    }
                    let v = Value::Object(acc);
                    proof {
                        lemma_vm_pairs(v->Object_0@);
                        assert(ces[i as int].0 == inner@[i as int].0@);
                        assert(ces[i as int].1 == inner@[i as int].1.vm());
                        assert(v.vm() == spec_summary(ces[i as int].0, ces[i as int].1, flm));
                    }
                    out.push(v);
                    proof {
                        assert(values_model(out@) =~= values_model(out0).push(
                            spec_summary(ces[i as int].0, ces[i as int].1, flm),
                        ));
                        assert(values_model(out0) + (seq![spec_summary(
                            ces[i as int].0,
                            ces[i as int].1,
                            flm,
                        )] + spec_summaries(ces, flm, i + 1)) =~= values_model(out@)
                            + spec_summaries(ces, flm, i + 1));
                    }
                    i += 1;
                }
                proof {
                    assert(spec_summaries(ces, flm, inner@.len() as int) =~= Seq::<
                        ValueModel,
                    >::empty());
                    assert(values_model(out@) + Seq::<ValueModel>::empty() =~= values_model(
                        out@,
                    ));
                }
                out
            },
        }
    }

    /// All values repeatedly assigned to `field` in the entry
    /// `section[key]`, recovered from the raw bytes; the third component
    /// is the section offset for reuse within one batch.
    pub fn get_duplicate_values(&self, section: &str, key: &str, field: &str, cached: Option<
        usize,
    >) -> (r: (Vec<String>, bool, Option<usize>))
        ensures
            ({
                let s = spec_extract_duplicates(
                    crate::encoding::spec_decode(self.gamestate_bytes@),
                    section@,
                    key@,
                    field@,
                    opt_model(cached),
                );
                strings_model(r.0@) == s.0 && r.1 == s.1 && opt_model(r.2) == s.2
            }),
    {
        let content = decode_bytes(&self.gamestate_bytes);
        extract_duplicate_values(&content, section, key, field, cached)
    }

    /// The raw text of the entry `section[key]`, verbatim.
    pub fn get_entry_text(&self, section: &str, key: &str, cached: Option<usize>) -> (r: (
        String,
        bool,
    ))
        ensures
            ({
                let s = spec_entry_text(
                    crate::encoding::spec_decode(self.gamestate_bytes@),
                    section@,
                    key@,
                    opt_model(cached),
                );
                r.0@ == s.0 && r.1 == s.1
            }),
    {
        let content = decode_bytes(&self.gamestate_bytes);
        extract_entry_text(&content, section, key, cached)
    }
}

} // verus!
