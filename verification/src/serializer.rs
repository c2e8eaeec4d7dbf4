//! Serialization of a flat document back to `name = value` text: keys are
//! quoted with `"` and `\` escaped, booleans render as `yes`/`no`, numbers
//! as their decimal text, strings quoted and escaped, one assignment per
//! line. Re-parsing this text recovers the document (see the laws module).

use vstd::prelude::*;

use crate::encoding::push_char;
use crate::parser::{no_chars, yes_chars};
use crate::value::{entries_model, Value, ValueModel};

verus! {

/// A scalar leaf: boolean, number or string.
pub open spec fn is_scalar(v: ValueModel) -> bool {
    v is Bool || v is Num || v is Str
}

/// Every value of the entry list is a scalar leaf.
pub open spec fn all_scalar(es: Seq<(Seq<char>, ValueModel)>) -> bool {
    forall|i: int| 0 <= i < es.len() ==> is_scalar(#[trigger] es[i].1)
}

/// Text with a backslash put before every `"` and `\`.
pub open spec fn escape_str(s: Seq<char>) -> Seq<char>
    decreases s.len(),
{
    if s.len() == 0 {
        Seq::empty()
    } else {
        let head: Seq<char> = if s[0] == '"' || s[0] == '\\' {
            seq!['\\', s[0]]
        } else {
            seq![s[0]]
        };
        head + escape_str(s.drop_first())
    }
}

/// Rendering of a scalar leaf.
pub open spec fn render_scalar(v: ValueModel) -> Seq<char> {
    match v {
        ValueModel::Bool(b) => if b {
            yes_chars()
        } else {
            no_chars()
        },
        ValueModel::Num(t) => t,
        ValueModel::Str(s) => seq!['"'] + escape_str(s) + seq!['"'],
        _ => Seq::empty(),
    }
}

/// Rendering of a value: scalars render as themselves, an object renders
/// as a brace-delimited block of its assignments.
pub open spec fn render_value(v: ValueModel) -> Seq<char>
    decreases v, 1int,
{
    match v {
        ValueModel::Obj(es) => seq!['{', '\n'] + spec_serialize_obj(es) + seq!['}'],
        _ => render_scalar(v),
    }
}

/// Text of one assignment: quoted key, equals sign, rendered value, one
/// line each.
pub open spec fn pair_text(k: Seq<char>, v: ValueModel) -> Seq<char>
    decreases v, 2int,
{
    seq!['"'] + escape_str(k) + seq!['"', '='] + render_value(v) + seq!['\n']
}

/// Text of an object, assignment by assignment.
pub open spec fn spec_serialize_obj(es: Seq<(Seq<char>, ValueModel)>) -> Seq<char>
    decreases es, 0int,
{
    if es.len() == 0 {
        Seq::empty()
    } else {
        proof {
            assert(decreases_to!(es[0] => es[0].1));
        }
        pair_text(es[0].0, es[0].1) + spec_serialize_obj(es.drop_first())
    }
}

/// Serializing one more pair appends its text.
pub proof fn lemma_serialize_snoc(es: Seq<(Seq<char>, ValueModel)>, k: Seq<char>, v: ValueModel)
    ensures
        spec_serialize_obj(es.push((k, v))) == spec_serialize_obj(es) + pair_text(k, v),
    decreases es.len(),
{
    if es.len() == 0 {
        assert(es.push((k, v)).drop_first() =~= Seq::<(Seq<char>, ValueModel)>::empty());
        assert(es.push((k, v))[0] == (k, v));
        assert(spec_serialize_obj(es.push((k, v))) == pair_text(k, v) + spec_serialize_obj(
            es.push((k, v)).drop_first(),
        ));
        assert(spec_serialize_obj(Seq::<(Seq<char>, ValueModel)>::empty()) == Seq::<char>::empty());
        assert(spec_serialize_obj(es) == Seq::<char>::empty());
        assert(pair_text(k, v) + Seq::<char>::empty() =~= Seq::<char>::empty() + pair_text(k, v));
        assert(spec_serialize_obj(es.push((k, v))) =~= spec_serialize_obj(es) + pair_text(k, v));
    } else {
        lemma_serialize_snoc(es.drop_first(), k, v);
        assert(es.push((k, v)).drop_first() =~= es.drop_first().push((k, v)));
        assert(es.push((k, v))[0] == es[0]);
        assert(pair_text(es[0].0, es[0].1) + (spec_serialize_obj(es.drop_first()) + pair_text(
            k,
            v,
        )) =~= (pair_text(es[0].0, es[0].1) + spec_serialize_obj(es.drop_first())) + pair_text(
            k,
            v,
        ));
    }
}

/// Characters of a string, one by one.
pub fn string_to_chars(s: &str) -> (r: Vec<char>)
    ensures
        r@ == s@,
{
    let n = s.unicode_len();
    let mut r: Vec<char> = Vec::new();
    let mut i: usize = 0;
    while i < n
        invariant
            0 <= i <= n,
            n == s@.len(),
            r@ =~= s@.subrange(0, i as int),
        decreases n - i,
    {
        r.push(s.get_char(i));
        assert(r@ =~= s@.subrange(0, i + 1 as int));
        i += 1;
    }
    assert(r@ =~= s@);
    r
}

/// Append text with `"` and `\` escaped.
#[verifier::loop_isolation(false)]
pub fn push_escaped(out: &mut String, cs: &Vec<char>)
    ensures
        final(out)@ == old(out)@ + escape_str(cs@),
{
    let mut i: usize = 0;
    while i < cs.len()
        invariant
            0 <= i <= cs@.len(),
            out@ == old(out)@ + escape_str(cs@.subrange(0, i as int)),
        decreases cs@.len() - i,
    {
        let ghost pre = cs@.subrange(0, i as int);
        let c = cs[i];
        if c == '"' || c == '\\' {
            push_char(out, '\\');
            push_char(out, c);
        } else {
            push_char(out, c);
        }
        proof {
            lemma_escape_snoc(pre, c);
            assert(cs@.subrange(0, i + 1 as int) =~= pre.push(c));
        }
        i += 1;
    }
    proof {
        assert(cs@.subrange(0, cs@.len() as int) =~= cs@);
    }
}

/// Escaping one more character appends its escaped form.
pub proof fn lemma_escape_snoc(s: Seq<char>, c: char)
    ensures
        escape_str(s.push(c)) == escape_str(s) + (if c == '"' || c == '\\' {
            seq!['\\', c]
        } else {
            seq![c]
        }),
    decreases s.len(),
{
    let tail: Seq<char> = if c == '"' || c == '\\' {
        seq!['\\', c]
    } else {
        seq![c]
    };
    if s.len() == 0 {
        assert(s.push(c)[0] == c);
        assert(s.push(c).drop_first() =~= Seq::<char>::empty());
        assert(escape_str(s.push(c)) == tail + escape_str(s.push(c).drop_first()));
        assert(escape_str(Seq::<char>::empty()) == Seq::<char>::empty());
        assert(escape_str(s) == Seq::<char>::empty());
        assert(tail + Seq::<char>::empty() =~= Seq::<char>::empty() + tail);
        assert(escape_str(s.push(c)) =~= escape_str(s) + tail);
    } else {
        lemma_escape_snoc(s.drop_first(), c);
        assert(s.push(c)[0] == s[0]);
        assert(s.push(c).drop_first() =~= s.drop_first().push(c));
        let head: Seq<char> = if s[0] == '"' || s[0] == '\\' {
            seq!['\\', s[0]]
        } else {
            seq![s[0]]
        };
        assert(head + (escape_str(s.drop_first()) + tail) =~= (head + escape_str(s.drop_first()))
            + tail);
    }
}

/// Serialize a flat document: `Some` exactly for an object whose values
/// are all scalar leaves, with the text of its assignments in order.
#[verifier::loop_isolation(false)]
pub fn to_assignments_text(v: &Value) -> (r: Option<String>)
    ensures
        match r {
            Some(s) => {
                &&& v.vm() is Obj
                &&& all_scalar(v.vm()->Obj_0)
                &&& s@ == spec_serialize_obj(v.vm()->Obj_0)
            },
            None => !(v.vm() is Obj && all_scalar(v.vm()->Obj_0)),
        },
{
    let entries = match v {
        Value::Object(o) => o,
        _ => {
            return None;
        },
    };
    proof {
        crate::value::lemma_vm_pairs(entries@);
    }
    let ghost es = entries_model(entries@);
    let mut out = String::new();
    let mut i: usize = 0;
    while i < entries.len()
        invariant
            0 <= i <= entries@.len(),
            es == entries_model(entries@),
            v.vm() == ValueModel::Obj(es),
            es.len() == entries@.len(),
            out@ == spec_serialize_obj(es.subrange(0, i as int)),
            forall|t: int| 0 <= t < i ==> is_scalar(#[trigger] es[t].1),
        decreases entries@.len() - i,
    {
        let ghost prefix = es.subrange(0, i as int);
        let key_chars = string_to_chars(entries[i].0.as_str());
        push_char(&mut out, '"');
        push_escaped(&mut out, &key_chars);
        push_char(&mut out, '"');
        push_char(&mut out, '=');
        match &entries[i].1 {
            Value::Bool(b) => {
                if *b {
                    push_char(&mut out, 'y');
                    push_char(&mut out, 'e');
                    push_char(&mut out, 's');
                } else {
                    push_char(&mut out, 'n');
                    push_char(&mut out, 'o');
                }
            },
            Value::Num(t) => {
                out.append(t.as_str());
            },
            Value::Str(s) => {
                let s_chars = string_to_chars(s.as_str());
                push_char(&mut out, '"');
                push_escaped(&mut out, &s_chars);
                push_char(&mut out, '"');
            },
            _ => {
                return None;
            },
        }
        push_char(&mut out, '\n');
        proof {
            lemma_serialize_snoc(prefix, es[i as int].0, es[i as int].1);
            assert(es.subrange(0, i + 1 as int) =~= prefix.push((es[i as int].0, es[i as int].1)));
            assert(out@ =~= spec_serialize_obj(prefix) + pair_text(es[i as int].0, es[i as int].1));
        }
        i += 1;
    }
    proof {
        assert(es.subrange(0, es.len() as int) =~= es);
    }
    Some(out)
}

} // verus!
