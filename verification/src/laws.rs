//! The library's laws: the duplicate-key collapse policy, the round trip
//! from a flat document through its text form and back, and the totality
//! of the byte decode inside quoted strings.

use vstd::prelude::*;

use crate::encoding::{spec_decode, spec_decode_byte};
use crate::parser::{
    attach, classify_bare, digits_end, empty_frame, finish, flush_pending, frame_value,
    init_state, is_digit, is_number_tok, lemma_digits_end, no_chars, run_toks, spec_parse,
    spec_parse_chars, step, tok_chars, tok_value, yes_chars, FrameS, PStateS,
};
use crate::serializer::{
    all_scalar, escape_str, is_scalar, pair_text, render_scalar, render_value,
    spec_serialize_obj,
};
use crate::token::{
    cons_tok, is_delim, is_ws, lemma_bare_end_is, quoted_scan, spec_tokenize, tokenize_from, Tok,
};
use crate::value::{
    keys_unique, lemma_obj_insert_append, lemma_obj_insert_get, obj_get, obj_insert, ValueModel,
};

verus! {

/// Token of a rendered scalar.
pub open spec fn scalar_tok(v: ValueModel) -> Tok {
    match v {
        ValueModel::Bool(b) => Tok::Bare(
            if b {
                yes_chars()
            } else {
                no_chars()
            },
        ),
        ValueModel::Num(t) => Tok::Bare(t),
        ValueModel::Str(s) => Tok::Quoted(s),
        _ => Tok::Bare(Seq::empty()),
    }
}

/// Fold of last-write-wins insertion over a list of assignments.
pub open spec fn insert_all(
    acc: Seq<(Seq<char>, ValueModel)>,
    ps: Seq<(Seq<char>, ValueModel)>,
) -> Seq<(Seq<char>, ValueModel)>
    decreases ps.len(),
{
    if ps.len() == 0 {
        acc
    } else {
        insert_all(obj_insert(acc, ps[0].0, ps[0].1), ps.drop_first())
    }
}

/// Value of the last assignment to `k`, scanning from the end.
pub open spec fn last_value(ps: Seq<(Seq<char>, ValueModel)>, k: Seq<char>) -> Option<ValueModel>
    decreases ps.len(),
{
    if ps.len() == 0 {
        None
    } else if ps.last().0 == k {
        Some(ps.last().1)
    } else {
        last_value(ps.drop_last(), k)
    }
}

/// A number's stored text satisfies the numeric grammar.
pub open spec fn nums_wf(es: Seq<(Seq<char>, ValueModel)>) -> bool {
    forall|i: int|
        0 <= i < es.len() ==> match #[trigger] es[i].1 {
            ValueModel::Num(t) => is_number_tok(t),
            _ => true,
        }
}

/// Neither `yes` nor `no` is a numeric literal.
proof fn lemma_yes_no_not_number()
    ensures
        !is_number_tok(yes_chars()),
        !is_number_tok(no_chars()),
{
    assert(yes_chars()[0] == 'y');
    assert(digits_end(yes_chars(), 0) == 0);
    assert(no_chars()[0] == 'n');
    assert(digits_end(no_chars(), 0) == 0);
}

/// A rendered scalar's token parses back to the same scalar.
proof fn lemma_scalar_tok_value(v: ValueModel)
    requires
        is_scalar(v),
        v matches ValueModel::Num(t) ==> is_number_tok(t),
    ensures
        tok_value(scalar_tok(v)) == v,
{
    match v {
        ValueModel::Bool(b) => {
            if b {
                assert(classify_bare(yes_chars()) == ValueModel::Bool(true));
            } else {
                assert(no_chars() != yes_chars()) by {
                    assert(no_chars().len() == 2 && yes_chars().len() == 3);
                }
                assert(classify_bare(no_chars()) == ValueModel::Bool(false));
            }
        },
        ValueModel::Num(t) => {
            lemma_yes_no_not_number();
            assert(t != yes_chars() && t != no_chars());
            assert(classify_bare(t) == ValueModel::Num(t));
        },
        _ => {},
    }
}

/// Inserting assignments whose keys are fresh and pairwise distinct
/// appends them in order.
proof fn lemma_insert_all_unique(
    acc: Seq<(Seq<char>, ValueModel)>,
    ps: Seq<(Seq<char>, ValueModel)>,
)
    requires
        keys_unique(acc + ps),
    ensures
        insert_all(acc, ps) == acc + ps,
    decreases ps.len(),
{
    if ps.len() == 0 {
        assert(acc + ps =~= acc);
    } else {
        let p0 = ps[0];
        let all = acc + ps;
        assert(all[acc.len() as int] == p0);
        assert forall|t: int| 0 <= t < acc.len() implies acc[t].0 != p0.0 by {
            assert(all[t] == acc[t]);
            assert(all[t].0 != all[acc.len() as int].0);
        }
        lemma_obj_insert_append(acc, p0.0, p0.1);
        assert(obj_insert(acc, p0.0, p0.1) == acc.push(p0));
        assert(acc.push(p0) + ps.drop_first() =~= acc + ps);
        lemma_insert_all_unique(acc.push(p0), ps.drop_first());
    }
}

/// How the last assignment relates to the first one and the rest.
proof fn lemma_last_value_cons(ps: Seq<(Seq<char>, ValueModel)>, k: Seq<char>)
    requires
        ps.len() > 0,
    ensures
        last_value(ps, k) == (match last_value(ps.drop_first(), k) {
            Some(v) => Some(v),
            None => if ps[0].0 == k {
                Some(ps[0].1)
            } else {
                None
            },
        }),
    decreases ps.len(),
{
    if ps.len() == 1 {
        assert(ps.drop_first().len() == 0);
        assert(ps.last() == ps[0]);
    } else {
        assert(ps.drop_first().last() == ps.last());
        if ps.last().0 == k {
        } else {
            lemma_last_value_cons(ps.drop_last(), k);
            assert(ps.drop_last()[0] == ps[0]);
            assert(ps.drop_first().drop_last() =~= ps.drop_last().drop_first());
            assert(last_value(ps.drop_first(), k) == last_value(ps.drop_first().drop_last(), k));
            assert(last_value(ps, k) == last_value(ps.drop_last(), k));
        }
    }
}

/// Folding assignments over an accumulator: a key maps to its last
/// assigned value, or to what the accumulator already held.
proof fn lemma_insert_all_get(
    acc: Seq<(Seq<char>, ValueModel)>,
    ps: Seq<(Seq<char>, ValueModel)>,
    k: Seq<char>,
)
    ensures
        obj_get(insert_all(acc, ps), k) == (match last_value(ps, k) {
            Some(v) => Some(v),
            None => obj_get(acc, k),
        }),
    decreases ps.len(),
{
    if ps.len() > 0 {
        let acc2 = obj_insert(acc, ps[0].0, ps[0].1);
        lemma_insert_all_get(acc2, ps.drop_first(), k);
        lemma_last_value_cons(ps, k);
        lemma_obj_insert_get(acc, ps[0].0, ps[0].1);
    }
}

/// Duplicate-key collapse law: when a block assigns the same key several
/// times, the built object holds exactly the value of the last assignment
/// to that key, and keys assigned once keep their value.
pub proof fn lemma_duplicate_collapse(ps: Seq<(Seq<char>, ValueModel)>, k: Seq<char>)
    ensures
        obj_get(insert_all(Seq::empty(), ps), k) == last_value(ps, k),
{
    lemma_insert_all_get(Seq::empty(), ps, k);
    if last_value(ps, k) is None {
        assert(obj_get(Seq::empty(), k) is None);
    }
}

/// Index into a sequence through a known suffix equality.
proof fn lemma_suffix_index(t: Seq<char>, i: int, u: Seq<char>, m: int)
    requires
        0 <= i <= t.len(),
        t.subrange(i, t.len() as int) == u,
        0 <= m < u.len(),
    ensures
        t.len() - i == u.len(),
        t[i + m] == u[m],
{
    assert(t.subrange(i, t.len() as int)[m] == t[i + m]);
}

/// Scanning a quoted string whose content was escaped recovers the
/// original content: the inverse of escaping.
proof fn lemma_scan_escaped_at(t: Seq<char>, i: int, s: Seq<char>, rest: Seq<char>)
    requires
        0 <= i <= t.len(),
        t.subrange(i, t.len() as int) == escape_str(s) + seq!['"'] + rest,
    ensures
        quoted_scan(t, i) == Some((s, i + escape_str(s).len() + 1)),
    decreases s.len(),
{
    let ek = escape_str(s);
    let u = (ek + seq!['"']) + rest;
    assert(u.len() == ek.len() + 1 + rest.len());
    if s.len() == 0 {
        assert(ek == Seq::<char>::empty());
        assert(u[0] == (ek + seq!['"'])[0]);
        assert((ek + seq!['"'])[0] == seq!['"'][0 - 0]);
        lemma_suffix_index(t, i, u, 0);
        assert(t[i] == '"');
        assert(quoted_scan(t, i) == Some((Seq::<char>::empty(), i + 1)));
    } else {
        let s1 = s.drop_first();
        let ek1 = escape_str(s1);
        if s[0] == '"' || s[0] == '\\' {
            assert(ek == seq!['\\', s[0]] + ek1);
            assert(ek.len() == 2 + ek1.len());
            assert(u[0] == (ek + seq!['"'])[0]);
            assert((ek + seq!['"'])[0] == ek[0]);
            assert(ek[0] == (seq!['\\', s[0]] + ek1)[0]);
            assert(u[1] == (ek + seq!['"'])[1]);
            assert((ek + seq!['"'])[1] == ek[1]);
            assert(ek[1] == (seq!['\\', s[0]] + ek1)[1]);
            lemma_suffix_index(t, i, u, 0);
            lemma_suffix_index(t, i, u, 1);
            assert(t[i] == '\\');
            assert(t[i + 1] == s[0]);
            assert(i + 1 < t.len());
            assert(t.subrange(i + 2, t.len() as int) =~= (ek1 + seq!['"']) + rest) by {
                assert forall|m: int| 0 <= m < t.len() - i - 2 implies t.subrange(
                    i + 2,
                    t.len() as int,
                )[m] == ((ek1 + seq!['"']) + rest)[m] by {
                    assert(t.subrange(i + 2, t.len() as int)[m] == t[i + 2 + m]);
                    lemma_suffix_index(t, i, u, m + 2);
                    assert(t[i + 2 + m] == u[m + 2]);
                    if m + 2 < ek.len() {
                        assert(u[m + 2] == (ek + seq!['"'])[m + 2]);
                        assert((ek + seq!['"'])[m + 2] == ek[m + 2]);
                        assert(ek[m + 2] == (seq!['\\', s[0]] + ek1)[m + 2]);
                        assert((seq!['\\', s[0]] + ek1)[m + 2] == ek1[m]);
                        assert(((ek1 + seq!['"']) + rest)[m] == (ek1 + seq!['"'])[m]);
                        assert((ek1 + seq!['"'])[m] == ek1[m]);
                    } else if m + 2 == ek.len() {
                        assert(u[m + 2] == (ek + seq!['"'])[m + 2]);
                        assert((ek + seq!['"'])[m + 2] == seq!['"'][0]);
                        assert(((ek1 + seq!['"']) + rest)[m] == (ek1 + seq!['"'])[m]);
                        assert((ek1 + seq!['"'])[m] == seq!['"'][m - ek1.len()]);
                    } else {
                        assert(u[m + 2] == rest[m + 2 - ek.len() - 1]);
                        assert(((ek1 + seq!['"']) + rest)[m] == rest[m - ek1.len() - 1]);
                    }
                }
            }
            lemma_scan_escaped_at(t, i + 2, s1, rest);
            assert(quoted_scan(t, i) == Some((seq![s[i - i + 1 - 1]] + s1, i + 2 + ek1.len() + 1)));
            assert(seq![s[0]] + s1 =~= s);
        } else {
            assert(ek == seq![s[0]] + ek1);
            assert(ek.len() == 1 + ek1.len());
            assert(u[0] == (ek + seq!['"'])[0]);
            assert((ek + seq!['"'])[0] == ek[0]);
            assert(ek[0] == (seq![s[0]] + ek1)[0]);
            lemma_suffix_index(t, i, u, 0);
            assert(t[i] == s[0]);
            assert(t[i] != '"' && t[i] != '\\');
            assert(t.subrange(i + 1, t.len() as int) =~= (ek1 + seq!['"']) + rest) by {
                assert forall|m: int| 0 <= m < t.len() - i - 1 implies t.subrange(
                    i + 1,
                    t.len() as int,
                )[m] == ((ek1 + seq!['"']) + rest)[m] by {
                    assert(t.subrange(i + 1, t.len() as int)[m] == t[i + 1 + m]);
                    lemma_suffix_index(t, i, u, m + 1);
                    assert(t[i + 1 + m] == u[m + 1]);
                    if m + 1 < ek.len() {
                        assert(u[m + 1] == (ek + seq!['"'])[m + 1]);
                        assert((ek + seq!['"'])[m + 1] == ek[m + 1]);
                        assert(ek[m + 1] == (seq![s[0]] + ek1)[m + 1]);
                        assert((seq![s[0]] + ek1)[m + 1] == ek1[m]);
                        assert(((ek1 + seq!['"']) + rest)[m] == (ek1 + seq!['"'])[m]);
                        assert((ek1 + seq!['"'])[m] == ek1[m]);
                    } else if m + 1 == ek.len() {
                        assert(u[m + 1] == (ek + seq!['"'])[m + 1]);
                        assert((ek + seq!['"'])[m + 1] == seq!['"'][0]);
                        assert(((ek1 + seq!['"']) + rest)[m] == (ek1 + seq!['"'])[m]);
                        assert((ek1 + seq!['"'])[m] == seq!['"'][m - ek1.len()]);
                    } else {
                        assert(u[m + 1] == rest[m + 1 - ek.len() - 1]);
                        assert(((ek1 + seq!['"']) + rest)[m] == rest[m - ek1.len() - 1]);
                    }
                }
            }
            lemma_scan_escaped_at(t, i + 1, s1, rest);
            assert(quoted_scan(t, i) == Some((seq![s[0]] + s1, i + 1 + ek1.len() + 1)));
            assert(seq![s[0]] + s1 =~= s);
        }
    }
}

/// The characters of a numeric literal are never delimiters.
proof fn lemma_num_nondelim(t: Seq<char>)
    requires
        is_number_tok(t),
    ensures
        t.len() > 0,
        forall|m: int| 0 <= m < t.len() ==> !is_delim(t[m]),
    decreases t.len(),
{
    let s0: int = if t[0] == '-' {
        1
    } else {
        0
    };
    let e = digits_end(t, s0);
    lemma_digits_end(t, s0);
    if e < t.len() {
        lemma_digits_end(t, e + 1);
    }
    assert forall|m: int| 0 <= m < t.len() implies !is_delim(t[m]) by {
        if m == 0 && t[0] == '-' {
        } else if m < e {
            assert(is_digit(t[m]));
        } else if m == e {
            assert(t[m] == '.');
        } else {
            assert(is_digit(t[m]));
        }
    }
}

/// A rendered bare scalar (boolean or number) is a nonempty run of
/// non-delimiters.
proof fn lemma_bare_render_nondelim(v: ValueModel)
    requires
        v is Bool || v is Num,
        v matches ValueModel::Num(t) ==> is_number_tok(t),
    ensures
        render_scalar(v).len() > 0,
        forall|m: int| 0 <= m < render_scalar(v).len() ==> !is_delim(#[trigger] render_scalar(v)[m]),
{
    match v {
        ValueModel::Bool(b) => {
            if b {
                assert(render_scalar(v) == yes_chars());
                assert(!is_delim('y') && !is_delim('e') && !is_delim('s'));
            } else {
                assert(render_scalar(v) == no_chars());
                assert(!is_delim('n') && !is_delim('o'));
            }
        },
        ValueModel::Num(t) => {
            lemma_num_nondelim(t);
        },
        _ => {},
    }
}

/// Round-trip law, flat form: serializing an object whose values are
/// scalar leaves, whose keys are pairwise distinct and whose numbers
/// carry valid decimal text, and parsing the text back, yields the
/// object unchanged.
pub proof fn lemma_round_trip(es: Seq<(Seq<char>, ValueModel)>)
    requires
        keys_unique(es),
        all_scalar(es),
        nums_wf(es),
    ensures
        spec_parse_chars(spec_serialize_obj(es)) == Some(ValueModel::Obj(es)),
{
    lemma_flat_rt(es);
    lemma_round_trip_nested(es);
}

/// Duplicate keys through the parser: the text of any flat assignment
/// list, keys repeated or not, parses to the object built by folding the
/// assignments under last-write-wins, so a key repeated with values
/// v1..vN ends up holding exactly vN.
pub proof fn lemma_parse_collapses_duplicates(ps: Seq<(Seq<char>, ValueModel)>, k: Seq<char>)
    requires
        all_scalar(ps),
        nums_wf(ps),
    ensures
        spec_parse_chars(spec_serialize_obj(ps)) == Some(
            ValueModel::Obj(insert_all(Seq::empty(), ps)),
        ),
        obj_get(insert_all(Seq::empty(), ps), k) == last_value(ps, k),
{
    lemma_flat_rt(ps);
    let t = spec_serialize_obj(ps);
    assert(t.subrange(0, t.len() as int) =~= t);
    lemma_tok_pairs_at(t, 0, ps);
    assert(tokenize_from(t, t.len() as int) == Some(Seq::<Tok>::empty()));
    assert(pairs_toks(ps) + Seq::<Tok>::empty() =~= pairs_toks(ps));
    assert(spec_tokenize(t) == Some(pairs_toks(ps)));
    lemma_run_pairs_n(ps, init_state(), Seq::empty());
    assert(pairs_toks(ps) + Seq::<Tok>::empty() =~= pairs_toks(ps));
    let stf = run_toks(pairs_toks(ps), init_state())->Some_0;
    assert(finish(stf) == Some(ValueModel::Obj(insert_all(Seq::empty(), ps))));
    lemma_duplicate_collapse(ps, k);
}

/// Tokens of a rendered value: a scalar is one token, an object block is
/// its pairs between braces.
pub open spec fn value_toks(v: ValueModel) -> Seq<Tok>
    decreases v, 1int,
{
    match v {
        ValueModel::Obj(es) => seq![Tok::Open] + pairs_toks(es) + seq![Tok::Close],
        _ => seq![scalar_tok(v)],
    }
}

/// Tokens of serialized assignments, nested blocks included.
pub open spec fn pairs_toks(es: Seq<(Seq<char>, ValueModel)>) -> Seq<Tok>
    decreases es, 0int,
{
    if es.len() == 0 {
        Seq::empty()
    } else {
        proof {
            assert(decreases_to!(es[0] => es[0].1));
        }
        seq![Tok::Quoted(es[0].0), Tok::Eq] + value_toks(es[0].1) + pairs_toks(es.drop_first())
    }
}

/// A value that the text form can carry back unchanged: booleans, numbers
/// with valid decimal text, strings, and objects of such values with
/// pairwise-distinct keys.
pub open spec fn rt_value_wf(v: ValueModel) -> bool
    decreases v, 1int,
{
    match v {
        ValueModel::Bool(_) => true,
        ValueModel::Num(t) => is_number_tok(t),
        ValueModel::Str(_) => true,
        ValueModel::Obj(es) => keys_unique(es) && rt_entries_wf(es),
        _ => false,
    }
}

/// Round-trippable entry values; the keys may repeat here, the collapse
/// law governs what repetition means.
pub open spec fn rt_entries_wf(es: Seq<(Seq<char>, ValueModel)>) -> bool
    decreases es, 0int,
{
    es.len() == 0 || ({
        proof {
            assert(decreases_to!(es[0] => es[0].1));
        }
        rt_value_wf(es[0].1) && rt_entries_wf(es.drop_first())
    })
}

/// Flat scalar assignments are round-trippable.
proof fn lemma_flat_rt(es: Seq<(Seq<char>, ValueModel)>)
    requires
        all_scalar(es),
        nums_wf(es),
    ensures
        rt_entries_wf(es),
    decreases es.len(),
{
    if es.len() > 0 {
        assert(all_scalar(es.drop_first()) && nums_wf(es.drop_first())) by {
            assert(forall|i: int|
                0 <= i < es.drop_first().len() ==> #[trigger] es.drop_first()[i] == es[i + 1]);
        }
        lemma_flat_rt(es.drop_first());
        assert(is_scalar(es[0].1));
        assert(rt_value_wf(es[0].1)) by {
            match es[0].1 {
                ValueModel::Num(t) => {
                    assert(is_number_tok(t));
                },
                _ => {},
            }
        }
    }
}

/// Running over concatenated tokens runs over each part in turn.
proof fn lemma_run_append(a: Seq<Tok>, b: Seq<Tok>, st: PStateS)
    ensures
        run_toks(a + b, st) == (match run_toks(a, st) {
            None => None::<PStateS>,
            Some(st2) => run_toks(b, st2),
        }),
    decreases a.len(),
{
    if a.len() == 0 {
        assert(a + b =~= b);
    } else {
        assert((a + b)[0] == a[0]);
        match step(st, a[0]) {
            None => {},
            Some(st2) => {
                assert((a + b).drop_first() =~= a.drop_first() + b);
                lemma_run_append(a.drop_first(), b, st2);
            },
        }
    }
}

/// Index into a sequence through a known window equality.
proof fn lemma_window_index(t: Seq<char>, i: int, u: Seq<char>, m: int)
    requires
        0 <= i,
        i + u.len() <= t.len(),
        t.subrange(i, i + u.len() as int) == u,
        0 <= m < u.len(),
    ensures
        t[i + m] == u[m],
{
    assert(t.subrange(i, i + u.len() as int)[m] == t[i + m]);
}

/// Tokenizing a rendered value, standing in a window of the input that
/// ends at a delimiter, yields the value's tokens and goes on after the
/// window.
proof fn lemma_tok_value_at(t: Seq<char>, i: int, v: ValueModel)
    requires
        0 <= i,
        i + render_value(v).len() <= t.len(),
        t.subrange(i, i + render_value(v).len() as int) == render_value(v),
        rt_value_wf(v),
        i + render_value(v).len() == t.len() || is_delim(t[i + render_value(v).len()]),
    ensures
        tokenize_from(t, i) == (match tokenize_from(t, i + render_value(v).len()) {
            None => None::<Seq<Tok>>,
            Some(ts) => Some(value_toks(v) + ts),
        }),
    decreases v, 1int,
{
    let rv = render_value(v);
    let lv = rv.len() as int;
    match v {
        ValueModel::Bool(_) | ValueModel::Num(_) => {
            assert(rv == render_scalar(v));
            lemma_bare_render_nondelim(v);
            assert forall|m: int| i <= m < i + lv implies !is_delim(t[m]) by {
                lemma_window_index(t, i, rv, m - i);
            }
            lemma_window_index(t, i, rv, 0);
            assert(t[i] == rv[0]);
            assert(!is_delim(t[i]));
            lemma_bare_end_is(t, i, i + lv);
            assert(t.subrange(i, i + lv) =~= rv);
            assert(tokenize_from(t, i) == cons_tok(Tok::Bare(rv), tokenize_from(t, i + lv)));
            assert(seq![Tok::Bare(rv)] =~= value_toks(v)) by {
                match v {
                    ValueModel::Bool(b) => {
                        assert(scalar_tok(v) == Tok::Bare(rv));
                    },
                    _ => {},
                }
            }
            match tokenize_from(t, i + lv) {
                None => {},
                Some(ts) => {
                    assert(seq![Tok::Bare(rv)] + ts =~= value_toks(v) + ts);
                },
            }
        },
        ValueModel::Str(s) => {
            let ek = escape_str(s);
            assert(rv == seq!['"'] + ek + seq!['"']);
            assert(rv.len() == ek.len() + 2) by {
                assert(((seq!['"'] + ek) + seq!['"']).len() == ek.len() + 2);
            }
            assert(rv[0] == '"') by {
                assert(((seq!['"'] + ek) + seq!['"'])[0] == (seq!['"'] + ek)[0]);
                assert((seq!['"'] + ek)[0] == seq!['"'][0]);
            }
            lemma_window_index(t, i, rv, 0);
            assert(t[i] == '"');
            let rest = t.subrange(i + lv, t.len() as int);
            assert(t.subrange(i + 1, t.len() as int) =~= ek + seq!['"'] + rest) by {
                assert forall|m: int|
                    0 <= m < t.len() - i - 1 implies t.subrange(i + 1, t.len() as int)[m] == ((ek
                    + seq!['"']) + rest)[m] by {
                    assert(t.subrange(i + 1, t.len() as int)[m] == t[i + 1 + m]);
                    if m < lv - 1 {
                        lemma_window_index(t, i, rv, m + 1);
                        assert(t[i + 1 + m] == rv[m + 1]);
                        if m < ek.len() {
                            assert(rv[m + 1] == (seq!['"'] + ek)[m + 1]);
                            assert((seq!['"'] + ek)[m + 1] == ek[m]);
                            assert(((ek + seq!['"']) + rest)[m] == (ek + seq!['"'])[m]);
                            assert((ek + seq!['"'])[m] == ek[m]);
                        } else {
                            assert(rv[m + 1] == seq!['"'][m + 1 - ek.len() - 1]);
                            assert(((ek + seq!['"']) + rest)[m] == (ek + seq!['"'])[m]);
                            assert((ek + seq!['"'])[m] == seq!['"'][m - ek.len()]);
                        }
                    } else {
                        assert(rest[m - lv + 1] == t[i + lv + (m - lv + 1)]);
                        assert(((ek + seq!['"']) + rest)[m] == rest[m - ek.len() - 1]);
                    }
                }
            }
            lemma_scan_escaped_at(t, i + 1, s, rest);
            assert(quoted_scan(t, i + 1) == Some((s, i + lv)));
            assert(tokenize_from(t, i) == cons_tok(Tok::Quoted(s), tokenize_from(t, i + lv)));
            match tokenize_from(t, i + lv) {
                None => {},
                Some(ts) => {
                    assert(seq![Tok::Quoted(s)] + ts =~= value_toks(v) + ts);
                },
            }
        },
        ValueModel::Obj(es) => {
            let body = spec_serialize_obj(es);
            let ls = body.len() as int;
            assert(rv == seq!['{', '\n'] + body + seq!['}']);
            assert(rv.len() == ls + 3) by {
                assert(((seq!['{', '\n'] + body) + seq!['}']).len() == body.len() + 3);
            }
            assert(rv[0] == '{' && rv[1] == '\n') by {
                assert(((seq!['{', '\n'] + body) + seq!['}'])[0] == (seq!['{', '\n'] + body)[0]);
                assert((seq!['{', '\n'] + body)[0] == seq!['{', '\n'][0]);
                assert(((seq!['{', '\n'] + body) + seq!['}'])[1] == (seq!['{', '\n'] + body)[1]);
                assert((seq!['{', '\n'] + body)[1] == seq!['{', '\n'][1]);
            }
            assert forall|m: int| 0 <= m < ls implies rv[m + 2] == body[m] by {
                assert(((seq!['{', '\n'] + body) + seq!['}'])[m + 2] == (seq!['{', '\n']
                    + body)[m + 2]);
                assert((seq!['{', '\n'] + body)[m + 2] == body[m]);
            }
            assert(rv[ls + 2] == '}') by {
                assert(((seq!['{', '\n'] + body) + seq!['}'])[ls + 2] == seq!['}'][0]);
            }
            lemma_window_index(t, i, rv, 0);
            lemma_window_index(t, i, rv, 1);
            assert(t[i] == '{');
            assert(t[i + 1] == '\n');
            assert(is_ws('\n'));
            assert(tokenize_from(t, i) == cons_tok(Tok::Open, tokenize_from(t, i + 1)));
            assert(tokenize_from(t, i + 1) == tokenize_from(t, i + 2));
            assert(t.subrange(i + 2, i + 2 + ls) =~= body) by {
                assert forall|m: int| 0 <= m < ls implies t.subrange(i + 2, i + 2 + ls)[m]
                    == body[m] by {
                    assert(t.subrange(i + 2, i + 2 + ls)[m] == t[i + 2 + m]);
                    lemma_window_index(t, i, rv, m + 2);
                }
            }
            lemma_tok_pairs_at(t, i + 2, es);
            lemma_window_index(t, i, rv, ls + 2);
            assert(t[i + 2 + ls] == '}');
            assert(tokenize_from(t, i + 2 + ls) == cons_tok(
                Tok::Close,
                tokenize_from(t, i + lv),
            ));
            match tokenize_from(t, i + lv) {
                None => {
                    assert(tokenize_from(t, i + 2 + ls) is None);
                    assert(tokenize_from(t, i + 2) is None);
                    assert(tokenize_from(t, i) is None);
                },
                Some(ts) => {
                    assert(tokenize_from(t, i + 2 + ls) == Some(seq![Tok::Close] + ts));
                    assert(tokenize_from(t, i + 2) == Some(pairs_toks(es) + (seq![Tok::Close]
                        + ts)));
                    assert(tokenize_from(t, i) == Some(seq![Tok::Open] + (pairs_toks(es) + (
                    seq![Tok::Close] + ts))));
                    assert(seq![Tok::Open] + (pairs_toks(es) + (seq![Tok::Close] + ts))
                        =~= value_toks(v) + ts) by {
                        assert(value_toks(v) == seq![Tok::Open] + pairs_toks(es)
                            + seq![Tok::Close]);
                    }
                },
            }
        },
        _ => {},
    }
}

/// Tokenizing serialized assignments, standing in a window of the input,
/// yields their tokens and goes on after the window.
proof fn lemma_tok_pairs_at(t: Seq<char>, i: int, es: Seq<(Seq<char>, ValueModel)>)
    requires
        0 <= i,
        i + spec_serialize_obj(es).len() <= t.len(),
        t.subrange(i, i + spec_serialize_obj(es).len() as int) == spec_serialize_obj(es),
        rt_entries_wf(es),
    ensures
        tokenize_from(t, i) == (match tokenize_from(t, i + spec_serialize_obj(es).len()) {
            None => None::<Seq<Tok>>,
            Some(ts) => Some(pairs_toks(es) + ts),
        }),
    decreases es, 0int,
{
    let w = spec_serialize_obj(es);
    let lw = w.len() as int;
    if es.len() == 0 {
        assert(lw == 0);
        match tokenize_from(t, i) {
            None => {},
            Some(ts) => {
                assert(pairs_toks(es) + ts =~= ts);
            },
        }
    } else {
        let k0 = es[0].0;
        let v0 = es[0].1;
        assert(decreases_to!(es[0] => es[0].1));
        let pt = pair_text(k0, v0);
        let rest_text = spec_serialize_obj(es.drop_first());
        assert(w == pt + rest_text);
        let ek = escape_str(k0);
        let rv = render_value(v0);
        assert(pt == seq!['"'] + ek + seq!['"', '='] + rv + seq!['\n']);
        assert(pt.len() == ek.len() + rv.len() + 4) by {
            assert(((((seq!['"'] + ek) + seq!['"', '=']) + rv) + seq!['\n']).len() == ek.len()
                + rv.len() + 4);
        }
        assert(w.len() == pt.len() + rest_text.len());
        assert forall|m: int| 0 <= m < pt.len() implies w[m] == pt[m] by {
            assert((pt + rest_text)[m] == pt[m]);
        }
        assert(pt[0] == '"') by {
            assert(((((seq!['"'] + ek) + seq!['"', '=']) + rv) + seq!['\n'])[0] == (((
            seq!['"'] + ek) + seq!['"', '=']) + rv)[0]);
            assert((((seq!['"'] + ek) + seq!['"', '=']) + rv)[0] == ((seq!['"'] + ek)
                + seq!['"', '='])[0]);
            assert(((seq!['"'] + ek) + seq!['"', '='])[0] == (seq!['"'] + ek)[0]);
            assert((seq!['"'] + ek)[0] == seq!['"'][0]);
        }
        assert forall|m: int| 0 <= m < ek.len() implies pt[m + 1] == ek[m] by {
            assert(((((seq!['"'] + ek) + seq!['"', '=']) + rv) + seq!['\n'])[m + 1] == (((
            seq!['"'] + ek) + seq!['"', '=']) + rv)[m + 1]);
            assert((((seq!['"'] + ek) + seq!['"', '=']) + rv)[m + 1] == ((seq!['"'] + ek)
                + seq!['"', '='])[m + 1]);
            assert(((seq!['"'] + ek) + seq!['"', '='])[m + 1] == (seq!['"'] + ek)[m + 1]);
            assert((seq!['"'] + ek)[m + 1] == ek[m]);
        }
        assert(pt[ek.len() as int + 1] == '"' && pt[ek.len() as int + 2] == '=') by {
            let b2 = (seq!['"'] + ek) + seq!['"', '='];
            assert(((b2 + rv) + seq!['\n'])[ek.len() as int + 1] == (b2 + rv)[ek.len() as int
                + 1]);
            assert((b2 + rv)[ek.len() as int + 1] == b2[ek.len() as int + 1]);
            assert(b2[ek.len() as int + 1] == seq!['"', '='][0]);
            assert(((b2 + rv) + seq!['\n'])[ek.len() as int + 2] == (b2 + rv)[ek.len() as int
                + 2]);
            assert((b2 + rv)[ek.len() as int + 2] == b2[ek.len() as int + 2]);
            assert(b2[ek.len() as int + 2] == seq!['"', '='][1]);
        }
        assert forall|m: int| 0 <= m < rv.len() implies pt[m + ek.len() + 3] == rv[m] by {
            let b2 = (seq!['"'] + ek) + seq!['"', '='];
            assert(((b2 + rv) + seq!['\n'])[m + ek.len() + 3] == (b2 + rv)[m + ek.len() + 3]);
            assert((b2 + rv)[m + ek.len() + 3] == rv[m]);
        }
        assert(pt[ek.len() + rv.len() + 3 as int] == '\n') by {
            let b2 = (seq!['"'] + ek) + seq!['"', '='];
            assert(((b2 + rv) + seq!['\n'])[ek.len() + rv.len() + 3 as int] == seq!['\n'][0]);
        }

        // the quoted key
        lemma_window_index(t, i, w, 0);
        assert(t[i] == '"');
        let restk = t.subrange(i + 2 + ek.len(), t.len() as int);
        assert(t.subrange(i + 1, t.len() as int) =~= ek + seq!['"'] + restk) by {
            assert forall|m: int|
                0 <= m < t.len() - i - 1 implies t.subrange(i + 1, t.len() as int)[m] == ((ek
                + seq!['"']) + restk)[m] by {
                assert(t.subrange(i + 1, t.len() as int)[m] == t[i + 1 + m]);
                if m < ek.len() {
                    lemma_window_index(t, i, w, m + 1);
                    assert(t[i + 1 + m] == w[m + 1]);
                    assert(w[m + 1] == pt[m + 1]);
                    assert(((ek + seq!['"']) + restk)[m] == (ek + seq!['"'])[m]);
                    assert((ek + seq!['"'])[m] == ek[m]);
                } else if m == ek.len() {
                    lemma_window_index(t, i, w, m + 1);
                    assert(t[i + 1 + m] == pt[ek.len() as int + 1]);
                    assert(((ek + seq!['"']) + restk)[m] == (ek + seq!['"'])[m]);
                    assert((ek + seq!['"'])[m] == seq!['"'][m - ek.len()]);
                } else {
                    assert(restk[m - ek.len() - 1] == t[i + 2 + ek.len() + (m - ek.len() - 1)]);
                    assert(((ek + seq!['"']) + restk)[m] == restk[m - ek.len() - 1]);
                }
            }
        }
        lemma_scan_escaped_at(t, i + 1, k0, restk);
        let j1 = i + 2 + ek.len() as int;
        assert(quoted_scan(t, i + 1) == Some((k0, j1)));
        assert(tokenize_from(t, i) == cons_tok(Tok::Quoted(k0), tokenize_from(t, j1)));

        // the equals sign
        lemma_window_index(t, i, w, ek.len() as int + 2);
        assert(t[j1] == '=');
        assert(tokenize_from(t, j1) == cons_tok(Tok::Eq, tokenize_from(t, j1 + 1)));

        // the rendered value
        let j2 = j1 + 1;
        assert(t.subrange(j2, j2 + rv.len() as int) =~= rv) by {
            assert forall|m: int| 0 <= m < rv.len() implies t.subrange(j2, j2
                + rv.len() as int)[m] == rv[m] by {
                assert(t.subrange(j2, j2 + rv.len() as int)[m] == t[j2 + m]);
                lemma_window_index(t, i, w, m + ek.len() + 3);
                assert(t[j2 + m] == pt[m + ek.len() + 3]);
            }
        }
        let j3 = j2 + rv.len() as int;
        lemma_window_index(t, i, w, ek.len() + rv.len() + 3 as int);
        assert(t[j3] == '\n');
        assert(is_delim('\n'));
        assert(rt_value_wf(v0));
        lemma_tok_value_at(t, j2, v0);

        // the line break, then the remaining assignments
        assert(is_ws('\n'));
        assert(tokenize_from(t, j3) == tokenize_from(t, j3 + 1));
        assert(rt_entries_wf(es.drop_first()));
        assert(t.subrange(j3 + 1, j3 + 1 + rest_text.len() as int) =~= rest_text) by {
            assert forall|m: int| 0 <= m < rest_text.len() implies t.subrange(j3 + 1, j3 + 1
                + rest_text.len() as int)[m] == rest_text[m] by {
                assert(t.subrange(j3 + 1, j3 + 1 + rest_text.len() as int)[m] == t[j3 + 1 + m]);
                lemma_window_index(t, i, w, pt.len() + m);
                assert(t[i + pt.len() + m] == w[pt.len() + m]);
                assert((pt + rest_text)[pt.len() + m] == rest_text[m]);
            }
        }
        lemma_tok_pairs_at(t, j3 + 1, es.drop_first());

        // assemble
        let fin = i + lw;
        assert(j3 + 1 + rest_text.len() == fin);
        match tokenize_from(t, fin) {
            None => {
                assert(tokenize_from(t, j3 + 1) is None);
                assert(tokenize_from(t, j3) is None);
                assert(tokenize_from(t, j2) is None);
                assert(tokenize_from(t, j1) is None);
                assert(tokenize_from(t, i) is None);
            },
            Some(ts) => {
                assert(tokenize_from(t, j3 + 1) == Some(pairs_toks(es.drop_first()) + ts));
                assert(tokenize_from(t, j2) == Some(value_toks(v0) + (pairs_toks(
                    es.drop_first(),
                ) + ts)));
                assert(tokenize_from(t, j1) == Some(seq![Tok::Eq] + (value_toks(v0)
                    + (pairs_toks(es.drop_first()) + ts))));
                assert(tokenize_from(t, i) == Some(seq![Tok::Quoted(k0)] + (seq![Tok::Eq] + (
                value_toks(v0) + (pairs_toks(es.drop_first()) + ts)))));
                assert(seq![Tok::Quoted(k0)] + (seq![Tok::Eq] + (value_toks(v0) + (pairs_toks(
                    es.drop_first(),
                ) + ts))) =~= pairs_toks(es) + ts);
            },
        }
    }
}

/// Running the parser over a rendered value's tokens, while a key waits
/// for it, binds the key to exactly that value.
proof fn lemma_run_value(v: ValueModel, st: PStateS, k: Seq<char>, rest: Seq<Tok>)
    requires
        st.top.key == Some(k),
        rt_value_wf(v),
    ensures
        run_toks(value_toks(v) + rest, st) == run_toks(
            rest,
            PStateS {
                top: FrameS { entries: obj_insert(st.top.entries, k, v), key: None, ..st.top },
                ..st
            },
        ),
    decreases v, 1int,
{
    let stf = PStateS {
        top: FrameS { entries: obj_insert(st.top.entries, k, v), key: None, ..st.top },
        ..st
    };
    match v {
        ValueModel::Bool(_) | ValueModel::Num(_) | ValueModel::Str(_) => {
            assert(value_toks(v) == seq![scalar_tok(v)]);
            let ts = value_toks(v) + rest;
            assert(ts[0] == scalar_tok(v));
            assert(scalar_tok(v) is Quoted || scalar_tok(v) is Bare);
            lemma_scalar_tok_value(v);
            let st1 = step(st, scalar_tok(v))->Some_0;
            assert(st1 =~~= stf);
            assert(ts.drop_first() =~= rest);
        },
        ValueModel::Obj(es) => {
            assert(value_toks(v) == seq![Tok::Open] + pairs_toks(es) + seq![Tok::Close]);
            let ts = value_toks(v) + rest;
            assert(ts =~= seq![Tok::Open] + (pairs_toks(es) + (seq![Tok::Close] + rest))) by {
                assert(((seq![Tok::Open] + pairs_toks(es)) + seq![Tok::Close]) + rest =~= seq![
                    Tok::Open,
                ] + (pairs_toks(es) + (seq![Tok::Close] + rest)));
            }
            assert(ts[0] == Tok::Open) by {
                assert((seq![Tok::Open] + (pairs_toks(es) + (seq![Tok::Close] + rest)))[0]
                    == seq![Tok::Open][0]);
            }
            let st1 = step(st, Tok::Open)->Some_0;
            assert(st1.stack == st.stack.push(st.top));
            assert(st1.top == empty_frame());
            assert(ts.drop_first() =~= pairs_toks(es) + (seq![Tok::Close] + rest));
            assert(run_toks(ts, st) == run_toks(pairs_toks(es) + (seq![Tok::Close] + rest), st1));

            lemma_run_pairs_n(es, st1, seq![Tok::Close] + rest);
            let st2 = PStateS {
                top: FrameS {
                    entries: insert_all(Seq::empty(), es),
                    elems: Seq::empty(),
                    pending: None,
                    key: None,
                },
                ..st1
            };
            assert(run_toks(pairs_toks(es) + (seq![Tok::Close] + rest), st1) == run_toks(
                seq![Tok::Close] + rest,
                st2,
            ));

            assert(Seq::<(Seq<char>, ValueModel)>::empty() + es =~= es);
            lemma_insert_all_unique(Seq::empty(), es);
            assert(st2.top.entries == es);

            assert((seq![Tok::Close] + rest)[0] == Tok::Close);
            assert(flush_pending(st2.top) == st2.top);
            assert(frame_value(st2.top) == Some(ValueModel::Obj(es)));
            assert(st2.stack.len() > 0);
            assert(st2.stack.last() == st.top);
            let st3 = step(st2, Tok::Close)->Some_0;
            assert(st3.stack == st2.stack.drop_last());
            assert(st3.stack =~= st.stack);
            assert(st3.top == attach(st.top, ValueModel::Obj(es)));
            assert(st3 =~~= stf);
            assert((seq![Tok::Close] + rest).drop_first() =~= rest);
            assert(run_toks(seq![Tok::Close] + rest, st2) == run_toks(rest, st3));
        },
        _ => {},
    }
}

/// Running the parser over the tokens of serialized assignments, nested
/// blocks included, folds them into the current block under last-write-
/// wins.
proof fn lemma_run_pairs_n(es: Seq<(Seq<char>, ValueModel)>, st: PStateS, rest: Seq<Tok>)
    requires
        st.top.pending is None,
        st.top.key is None,
        rt_entries_wf(es),
    ensures
        run_toks(pairs_toks(es) + rest, st) == run_toks(
            rest,
            PStateS {
                top: FrameS {
                    entries: insert_all(st.top.entries, es),
                    elems: st.top.elems,
                    pending: None,
                    key: None,
                },
                ..st
            },
        ),
    decreases es, 0int,
{
    let stf = PStateS {
        top: FrameS {
            entries: insert_all(st.top.entries, es),
            elems: st.top.elems,
            pending: None,
            key: None,
        },
        ..st
    };
    if es.len() == 0 {
        assert(pairs_toks(es) + rest =~= rest);
        assert(st =~~= stf);
    } else {
        let k0 = es[0].0;
        let v0 = es[0].1;
        assert(decreases_to!(es[0] => es[0].1));
        let ts = pairs_toks(es) + rest;
        assert(ts =~= seq![Tok::Quoted(k0)] + (seq![Tok::Eq] + (value_toks(v0) + (pairs_toks(
            es.drop_first(),
        ) + rest)))) by {
            assert((seq![Tok::Quoted(k0), Tok::Eq] + value_toks(v0) + pairs_toks(
                es.drop_first(),
            )) + rest =~= seq![Tok::Quoted(k0)] + (seq![Tok::Eq] + (value_toks(v0) + (
            pairs_toks(es.drop_first()) + rest))));
        }
        assert(ts[0] == Tok::Quoted(k0)) by {
            assert((seq![Tok::Quoted(k0)] + (seq![Tok::Eq] + (value_toks(v0) + (pairs_toks(
                es.drop_first(),
            ) + rest))))[0] == seq![Tok::Quoted(k0)][0]);
        }
        assert(flush_pending(st.top) == st.top);
        let st1 = step(st, Tok::Quoted(k0))->Some_0;
        assert(st1.top.pending == Some(Tok::Quoted(k0)) && st1.top.key is None);
        assert(ts.drop_first() =~= seq![Tok::Eq] + (value_toks(v0) + (pairs_toks(
            es.drop_first(),
        ) + rest)));
        assert(run_toks(ts, st) == run_toks(
            seq![Tok::Eq] + (value_toks(v0) + (pairs_toks(es.drop_first()) + rest)),
            st1,
        ));
        let ts1 = seq![Tok::Eq] + (value_toks(v0) + (pairs_toks(es.drop_first()) + rest));
        assert(ts1[0] == Tok::Eq) by {
            assert((seq![Tok::Eq] + (value_toks(v0) + (pairs_toks(es.drop_first()) + rest)))[0]
                == seq![Tok::Eq][0]);
        }
        let st2 = step(st1, Tok::Eq)->Some_0;
        assert(st2.top.key == Some(k0) && st2.top.pending is None);
        assert(st2.top.entries == st.top.entries && st2.top.elems == st.top.elems);
        assert(st2.stack == st.stack);
        assert(ts1.drop_first() =~= value_toks(v0) + (pairs_toks(es.drop_first()) + rest));
        assert(run_toks(ts1, st1) == run_toks(
            value_toks(v0) + (pairs_toks(es.drop_first()) + rest),
            st2,
        ));

        assert(rt_value_wf(v0));
        lemma_run_value(v0, st2, k0, pairs_toks(es.drop_first()) + rest);
        let st3 = PStateS {
            top: FrameS { entries: obj_insert(st2.top.entries, k0, v0), key: None, ..st2.top },
            ..st2
        };
        assert(st3.top.pending is None && st3.top.key is None);
        assert(rt_entries_wf(es.drop_first()));
        lemma_run_pairs_n(es.drop_first(), st3, rest);
        assert(insert_all(st.top.entries, es) == insert_all(
            obj_insert(st.top.entries, k0, v0),
            es.drop_first(),
        ));
        let st4 = PStateS {
            top: FrameS {
                entries: insert_all(st3.top.entries, es.drop_first()),
                elems: st3.top.elems,
                pending: None,
                key: None,
            },
            ..st3
        };
        assert(st4 =~~= stf);
        assert(run_toks(value_toks(v0) + (pairs_toks(es.drop_first()) + rest), st2) == run_toks(
            pairs_toks(es.drop_first()) + rest,
            st3,
        ));
        assert(run_toks(pairs_toks(es.drop_first()) + rest, st3) == run_toks(rest, st4));
    }
}

/// Round-trip law, nested form: serializing an object whose leaves are
/// scalars (numbers carrying valid decimal text), whose objects have
/// pairwise-distinct keys at every level, and parsing the text back,
/// yields the object unchanged.
pub proof fn lemma_round_trip_nested(es: Seq<(Seq<char>, ValueModel)>)
    requires
        keys_unique(es),
        rt_entries_wf(es),
    ensures
        spec_parse_chars(spec_serialize_obj(es)) == Some(ValueModel::Obj(es)),
{
    let t = spec_serialize_obj(es);
    assert(t.subrange(0, t.len() as int) =~= t);
    lemma_tok_pairs_at(t, 0, es);
    assert(tokenize_from(t, t.len() as int) == Some(Seq::<Tok>::empty()));
    assert(pairs_toks(es) + Seq::<Tok>::empty() =~= pairs_toks(es));
    assert(spec_tokenize(t) == Some(pairs_toks(es)));
    lemma_run_pairs_n(es, init_state(), Seq::empty());
    let stf = run_toks(pairs_toks(es), init_state())->Some_0;
    assert(run_toks(pairs_toks(es) + Seq::<Tok>::empty(), init_state()) == run_toks(
        Seq::empty(),
        PStateS {
            top: FrameS {
                entries: insert_all(Seq::empty(), es),
                elems: Seq::empty(),
                pending: None,
                key: None,
            },
            ..init_state()
        },
    ));
    assert(Seq::<(Seq<char>, ValueModel)>::empty() + es =~= es);
    lemma_insert_all_unique(Seq::empty(), es);
    assert(finish(stf) == Some(ValueModel::Obj(es)));
}

/// Encoding totality law: any byte other than the quote and the backslash,
/// embedded in a quoted string, parses to the one-character string holding
/// that byte's decoded character; the decode step itself never rejects a
/// byte. The two excluded bytes close the string or start an escape, so
/// the embedding itself changes shape for them.
pub proof fn lemma_byte_in_string_parses(b: u8)
    requires
        b != 0x22,
        b != 0x5C,
    ensures
        ({
            let bytes = seq![0x6Bu8, 0x3Du8, 0x22u8, b, 0x22u8];
            spec_parse(bytes) == Some(
                ValueModel::Obj(
                    seq![(seq!['k'], ValueModel::Str(seq![spec_decode_byte(b)]))],
                ),
            )
        }),
{
    let bytes = seq![0x6Bu8, 0x3Du8, 0x22u8, b, 0x22u8];
    let c = spec_decode_byte(b);
    let s = spec_decode(bytes);
    assert(s =~= seq!['k', '=', '"', c, '"']) by {
        assert(spec_decode_byte(0x6Bu8) == 'k');
        assert(spec_decode_byte(0x3Du8) == '=');
        assert(spec_decode_byte(0x22u8) == '"');
    }
    assert(c != '"' && c != '\\') by {
        if b < 0x80 || b >= 0xA0 {
            assert(c == b as char);
        }
    }

    // tokens: a bare name, an equals sign, a one-character quoted string
    assert(!is_delim('k'));
    assert(is_delim('='));
    lemma_bare_end_is(s, 0, 1);
    assert(s.subrange(0, 1) =~= seq!['k']);
    assert(tokenize_from(s, 0) == cons_tok(Tok::Bare(seq!['k']), tokenize_from(s, 1)));
    assert(tokenize_from(s, 1) == cons_tok(Tok::Eq, tokenize_from(s, 2)));
    assert(quoted_scan(s, 4) == Some((Seq::<char>::empty(), 5int)));
    assert(quoted_scan(s, 3) == Some((seq![c] + Seq::<char>::empty(), 5int)));
    assert(seq![c] + Seq::<char>::empty() =~= seq![c]);
    assert(tokenize_from(s, 2) == cons_tok(Tok::Quoted(seq![c]), tokenize_from(s, 5)));
    assert(tokenize_from(s, 5) == Some(Seq::<Tok>::empty()));
    let ts = seq![Tok::Bare(seq!['k']), Tok::Eq, Tok::Quoted(seq![c])];
    assert(spec_tokenize(s) == Some(
        seq![Tok::Bare(seq!['k'])] + (seq![Tok::Eq] + (seq![Tok::Quoted(seq![c])] + Seq::<
            Tok,
        >::empty())),
    ));
    assert(seq![Tok::Bare(seq!['k'])] + (seq![Tok::Eq] + (seq![Tok::Quoted(seq![c])] + Seq::<
        Tok,
    >::empty())) =~= ts);

    // the run: pending name, key, value
    let st0 = init_state();
    let st1 = step(st0, ts[0])->Some_0;
    assert(flush_pending(st0.top) == st0.top);
    let st2 = step(st1, ts[1])->Some_0;
    assert(st2.top.key == Some(tok_chars(Tok::Bare(seq!['k']))));
    let st3 = step(st2, ts[2])->Some_0;
    assert(st3.top.entries == obj_insert(Seq::empty(), seq!['k'], ValueModel::Str(seq![c])));
    assert(obj_insert(
        Seq::<(Seq<char>, ValueModel)>::empty(),
        seq!['k'],
        ValueModel::Str(seq![c]),
    ) =~= seq![(seq!['k'], ValueModel::Str(seq![c]))]);
    assert(run_toks(ts, st0) == run_toks(ts.drop_first(), st1));
    assert(ts.drop_first()[0] == ts[1]);
    assert(run_toks(ts.drop_first(), st1) == run_toks(ts.drop_first().drop_first(), st2));
    assert(ts.drop_first().drop_first()[0] == ts[2]);
    assert(run_toks(ts.drop_first().drop_first(), st2) == run_toks(
        ts.drop_first().drop_first().drop_first(),
        st3,
    ));
    assert(ts.drop_first().drop_first().drop_first() =~= Seq::<Tok>::empty());
    assert(run_toks(ts, st0) == Some(st3));
    assert(finish(st3) == Some(ValueModel::Obj(st3.top.entries)));
}

} // verus!
