//! Tree builder: a shift-reduce pass over the token stream. Scalars are
//! classified as booleans (`yes`/`no`), decimal numbers or strings; a block
//! of `name = value` pairs becomes an object with last-write-wins keys; a
//! block of plain values becomes an array; an empty block is an object.

use vstd::prelude::*;

use crate::encoding::{chars_to_string, decode_bytes, spec_decode};
use crate::token::{spec_tokenize, tokenize, toks_model, Tok, Token, TokenKind};
use crate::value::{
    arr_model, entries_insert, entries_model, keys_unique, lemma_obj_insert_get, lemma_vm_list,
    lemma_vm_pairs, obj_insert, vm_wf, Value, ValueModel,
};

verus! {

broadcast use crate::value::lemma_wf_entries, crate::value::lemma_wf_list;

/// Position of a grammar failure: character offset and one-based line.
#[derive(Debug)]
pub struct FormatError {
    pub pos: usize,
    pub line: usize,
}

/// The characters of `yes`.
pub open spec fn yes_chars() -> Seq<char> {
    seq!['y', 'e', 's']
}

/// The characters of `no`.
pub open spec fn no_chars() -> Seq<char> {
    seq!['n', 'o']
}

/// A decimal digit.
pub open spec fn is_digit(c: char) -> bool {
    '0' <= c && c <= '9'
}

/// Every character is a decimal digit.
pub open spec fn all_digits(s: Seq<char>) -> bool {
    forall|i: int| 0 <= i < s.len() ==> is_digit(s[i])
}

/// First position at or after `i` that does not hold a digit.
pub open spec fn digits_end(s: Seq<char>, i: int) -> int
    decreases s.len() - i,
{
    if i < 0 || i >= s.len() {
        i
    } else if !is_digit(s[i]) {
        i
    } else {
        digits_end(s, i + 1)
    }
}

/// Bounds and content of a digit-run scan.
pub proof fn lemma_digits_end(s: Seq<char>, i: int)
    requires
        0 <= i <= s.len(),
    ensures
        i <= digits_end(s, i) <= s.len(),
        forall|t: int| i <= t < digits_end(s, i) ==> is_digit(s[t]),
        digits_end(s, i) == s.len() || !is_digit(s[digits_end(s, i)]),
    decreases s.len() - i,
{
    if i < s.len() && is_digit(s[i]) {
        lemma_digits_end(s, i + 1);
    }
}

/// A run of digits from `i` to `j` exclusive, ended by a non-digit or the
/// end of input, pins `digits_end` down to `j`.
pub proof fn lemma_digits_end_is(s: Seq<char>, i: int, j: int)
    requires
        0 <= i <= j <= s.len(),
        forall|t: int| i <= t < j ==> is_digit(s[t]),
        j == s.len() || !is_digit(s[j]),
    ensures
        digits_end(s, i) == j,
    decreases j - i,
{
    if i < j {
        lemma_digits_end_is(s, i + 1, j);
    }
}

/// A decimal numeric literal: optional leading `-`, a nonempty run of
/// digits, and at most one dot followed by a nonempty run of digits that
/// reaches the end.
pub open spec fn is_number_tok(t: Seq<char>) -> bool {
    t.len() > 0 && {
        let s0: int = if t[0] == '-' {
            1
        } else {
            0
        };
        let e = digits_end(t, s0);
        e > s0 && (e == t.len() || (t[e] == '.' && e + 1 < t.len() && digits_end(t, e + 1)
            == t.len()))
    }
}

/// Value of a bare token: boolean, number or plain string.
pub open spec fn classify_bare(t: Seq<char>) -> ValueModel {
    if t == yes_chars() {
        ValueModel::Bool(true)
    } else if t == no_chars() {
        ValueModel::Bool(false)
    } else if is_number_tok(t) {
        ValueModel::Num(t)
    } else {
        ValueModel::Str(t)
    }
}

/// Value of a scalar token.
pub open spec fn tok_value(t: Tok) -> ValueModel {
    match t {
        Tok::Quoted(c) => ValueModel::Str(c),
        Tok::Bare(c) => classify_bare(c),
        _ => ValueModel::Null,
    }
}

/// Characters of a scalar token.
pub open spec fn tok_chars(t: Tok) -> Seq<char> {
    match t {
        Tok::Quoted(c) => c,
        Tok::Bare(c) => c,
        _ => Seq::empty(),
    }
}

/// One partially built block: object entries and array elements collected
/// so far, a scalar whose role is still open, and a key awaiting its value.
#[verifier::ext_equal]
pub struct FrameS {
    pub entries: Seq<(Seq<char>, ValueModel)>,
    pub elems: Seq<ValueModel>,
    pub pending: Option<Tok>,
    pub key: Option<Seq<char>>,
}

/// Parser state: the enclosing partial blocks and the current one.
#[verifier::ext_equal]
pub struct PStateS {
    pub stack: Seq<FrameS>,
    pub top: FrameS,
}

/// A block with nothing collected yet.
pub open spec fn empty_frame() -> FrameS {
    FrameS { entries: Seq::empty(), elems: Seq::empty(), pending: None, key: None }
}

/// The parser's starting state: the unbraced top-level block.
pub open spec fn init_state() -> PStateS {
    PStateS { stack: Seq::empty(), top: empty_frame() }
}

/// A pending scalar that gained no `=` is an array element.
pub open spec fn flush_pending(f: FrameS) -> FrameS {
    match f.pending {
        None => f,
        Some(p) => FrameS { pending: None, elems: f.elems.push(tok_value(p)), ..f },
    }
}

/// Value of a closed block: entries only (or nothing) make an object,
/// elements only make an array, a mix is a grammar error.
pub open spec fn frame_value(f: FrameS) -> Option<ValueModel> {
    if f.elems.len() == 0 {
        Some(ValueModel::Obj(f.entries))
    } else if f.entries.len() == 0 {
        Some(ValueModel::Arr(f.elems))
    } else {
        None
    }
}

/// A finished block value lands under the parent's waiting key, or as one
/// of the parent's array elements.
pub open spec fn attach(parent: FrameS, v: ValueModel) -> FrameS {
    match parent.key {
        Some(k) => FrameS { entries: obj_insert(parent.entries, k, v), key: None, ..parent },
        None => FrameS { elems: parent.elems.push(v), ..parent },
    }
}

/// One parser step on one token; `None` is a grammar error.
pub open spec fn step(st: PStateS, t: Tok) -> Option<PStateS> {
    match t {
        Tok::Eq => match (st.top.pending, st.top.key) {
            (Some(p), None) => Some(
                PStateS {
                    top: FrameS { pending: None, key: Some(tok_chars(p)), ..st.top },
                    ..st
                },
            ),
            _ => None,
        },
        Tok::Quoted(_) | Tok::Bare(_) => match st.top.key {
            Some(k) => Some(
                PStateS {
                    top: FrameS {
                        entries: obj_insert(st.top.entries, k, tok_value(t)),
                        key: None,
                        ..st.top
                    },
                    ..st
                },
            ),
            None => {
                let f = flush_pending(st.top);
                Some(PStateS { top: FrameS { pending: Some(t), ..f }, ..st })
            },
        },
        Tok::Open => {
            let f = if st.top.key is Some {
                st.top
            } else {
                flush_pending(st.top)
            };
            Some(PStateS { stack: st.stack.push(f), top: empty_frame() })
        },
        Tok::Close => {
            if st.top.key is Some {
                None
            } else {
                let f = flush_pending(st.top);
                match frame_value(f) {
                    None => None,
                    Some(v) => {
                        if st.stack.len() == 0 {
                            None
                        } else {
                            Some(
                                PStateS {
                                    stack: st.stack.drop_last(),
                                    top: attach(st.stack.last(), v),
                                },
                            )
                        }
                    },
                }
            }
        },
    }
}

/// Run the parser over a token sequence.
pub open spec fn run_toks(ts: Seq<Tok>, st: PStateS) -> Option<PStateS>
    decreases ts.len(),
{
    if ts.len() == 0 {
        Some(st)
    } else {
        match step(st, ts[0]) {
            None => None,
            Some(st2) => run_toks(ts.drop_first(), st2),
        }
    }
}

/// Accept the final state: no open block, no dangling `=`, no stray value;
/// the document is the top-level object.
pub open spec fn finish(st: PStateS) -> Option<ValueModel> {
    if st.stack.len() == 0 && st.top.key is None && st.top.pending is None && st.top.elems.len()
        == 0 {
        Some(ValueModel::Obj(st.top.entries))
    } else {
        None
    }
}

/// Document of a token sequence.
pub open spec fn spec_parse_toks(ts: Seq<Tok>) -> Option<ValueModel> {
    match run_toks(ts, init_state()) {
        None => None,
        Some(st) => finish(st),
    }
}

/// Document of a character sequence.
pub open spec fn spec_parse_chars(s: Seq<char>) -> Option<ValueModel> {
    match spec_tokenize(s) {
        None => None,
        Some(ts) => spec_parse_toks(ts),
    }
}

/// Document of a byte buffer: decode, tokenize, build.
pub open spec fn spec_parse(bytes: Seq<u8>) -> Option<ValueModel> {
    spec_parse_chars(spec_decode(bytes))
}

/// Well-formed frame: collected entries and elements are themselves
/// well-formed documents with distinct keys.
pub open spec fn frame_wf(f: FrameS) -> bool {
    &&& keys_unique(f.entries)
    &&& forall|i: int| 0 <= i < f.entries.len() ==> #[trigger] vm_wf(f.entries[i].1)
    &&& forall|i: int| 0 <= i < f.elems.len() ==> #[trigger] vm_wf(f.elems[i])
}

/// Well-formed parser state.
pub open spec fn state_wf(st: PStateS) -> bool {
    &&& frame_wf(st.top)
    &&& forall|i: int| 0 <= i < st.stack.len() ==> #[trigger] frame_wf(st.stack[i])
}

/// Every value of an inserted entry list is the inserted value or one of
/// the original values.
pub proof fn lemma_obj_insert_values(
    es: Seq<(Seq<char>, ValueModel)>,
    k: Seq<char>,
    v: ValueModel,
)
    ensures
        forall|i: int|
            0 <= i < obj_insert(es, k, v).len() ==> #[trigger] obj_insert(es, k, v)[i].1 == v
                || exists|j: int| 0 <= j < es.len() && obj_insert(es, k, v)[i].1 == #[trigger] es[j].1,
    decreases es.len(),
{
    let r = obj_insert(es, k, v);
    if es.len() == 0 {
    } else if es[0].0 == k {
        assert forall|i: int| 0 <= i < r.len() implies #[trigger] r[i].1 == v || exists|j: int|
            0 <= j < es.len() && r[i].1 == #[trigger] es[j].1 by {
            if i > 0 {
                assert(r[i] == es.drop_first()[i - 1]);
                assert(r[i] == es[i]);
            }
        }
    } else {
        lemma_obj_insert_values(es.drop_first(), k, v);
        let r2 = obj_insert(es.drop_first(), k, v);
        assert forall|i: int| 0 <= i < r.len() implies #[trigger] r[i].1 == v || exists|j: int|
            0 <= j < es.len() && r[i].1 == #[trigger] es[j].1 by {
            if i == 0 {
                assert(r[0] == es[0]);
                assert(es[0].1 == es[0].1);
            } else {
                assert(r[i] == r2[i - 1]);
                if r2[i - 1].1 == v {
                } else {
                    let j = choose|j: int| 0 <= j < es.drop_first().len() && r2[i - 1].1
                        == es.drop_first()[j].1;
                    assert(es.drop_first()[j] == es[j + 1]);
                    assert(r[i].1 == es[j + 1].1);
                }
            }
        }
    }
}

/// A parser step preserves state well-formedness.
pub proof fn lemma_step_wf(st: PStateS, t: Tok)
    requires
        state_wf(st),
        step(st, t) is Some,
    ensures
        state_wf(step(st, t)->Some_0),
{
    let st2 = step(st, t)->Some_0;
    match t {
        Tok::Eq => {},
        Tok::Quoted(_) | Tok::Bare(_) => {
            match st.top.key {
                Some(k) => {
                    lemma_obj_insert_get(st.top.entries, k, tok_value(t));
                    lemma_obj_insert_values(st.top.entries, k, tok_value(t));
                    assert(vm_wf(tok_value(t)));
                    assert forall|i: int| 0 <= i < st2.top.entries.len() implies #[trigger] vm_wf(
                        st2.top.entries[i].1,
                    ) by {
                        if st2.top.entries[i].1 == tok_value(t) {
                        } else {
                            let j = choose|j: int| 0 <= j < st.top.entries.len()
                                && st2.top.entries[i].1 == st.top.entries[j].1;
                            assert(vm_wf(st.top.entries[j].1));
                        }
                    }
                },
                None => {
                    assert(vm_wf(tok_value(t)));
                    match st.top.pending {
                        None => {},
                        Some(p) => {
                            assert(vm_wf(tok_value(p)));
                        },
                    }
                },
            }
        },
        Tok::Open => {
            match st.top.pending {
                None => {},
                Some(p) => {
                    assert(vm_wf(tok_value(p)));
                },
            }
        },
        Tok::Close => {
            let f = flush_pending(st.top);
            let v = frame_value(f)->Some_0;
            assert(frame_wf(f)) by {
                match st.top.pending {
                    None => {},
                    Some(p) => {
                        assert(vm_wf(tok_value(p)));
                    },
                }
            }
            crate::value::lemma_wf_entries(f.entries);
            crate::value::lemma_wf_list(f.elems);
            if f.elems.len() == 0 {
                assert(v == ValueModel::Obj(f.entries));
                assert(vm_wf(v));
            } else {
                assert(v == ValueModel::Arr(f.elems));
                assert(vm_wf(v));
            }
            let parent = st.stack.last();
            assert(frame_wf(parent));
            match parent.key {
                Some(k) => {
                    lemma_obj_insert_get(parent.entries, k, v);
                    lemma_obj_insert_values(parent.entries, k, v);
                    assert forall|i: int| 0 <= i < st2.top.entries.len() implies #[trigger] vm_wf(
                        st2.top.entries[i].1,
                    ) by {
                        if st2.top.entries[i].1 == v {
                        } else {
                            let j = choose|j: int| 0 <= j < parent.entries.len()
                                && st2.top.entries[i].1 == parent.entries[j].1;
                            assert(vm_wf(parent.entries[j].1));
                        }
                    }
                },
                None => {},
            }
        },
    }
}

/// A whole run preserves state well-formedness.
pub proof fn lemma_run_wf(ts: Seq<Tok>, st: PStateS)
    requires
        state_wf(st),
        run_toks(ts, st) is Some,
    ensures
        state_wf(run_toks(ts, st)->Some_0),
    decreases ts.len(),
{
    if ts.len() > 0 {
        lemma_step_wf(st, ts[0]);
        lemma_run_wf(ts.drop_first(), step(st, ts[0])->Some_0);
    }
}

/// Whether a character is a decimal digit.
pub fn is_digit_exec(c: char) -> (r: bool)
    ensures
        r == is_digit(c),
{
    '0' <= c && c <= '9'
}

/// Whether a character buffer holds a decimal numeric literal.
#[verifier::loop_isolation(false)]
pub fn is_number_exec(t: &Vec<char>) -> (r: bool)
    ensures
        r == is_number_tok(t@),
{
    let n = t.len();
    if n == 0 {
        return false;
    }
    let s0: usize = if t[0] == '-' {
        1
    } else {
        0
    };
    let mut e: usize = s0;
    while e < n && is_digit_exec(t[e])
        invariant
            s0 <= e <= n,
            forall|k: int| s0 <= k < e ==> is_digit(t@[k]),
        decreases n - e,
    {
        e += 1;
    }
    proof {
        lemma_digits_end_is(t@, s0 as int, e as int);
    }
    if e == s0 {
        return false;
    }
    if e == n {
        return true;
    }
    if t[e] != '.' {
        return false;
    }
    if e + 1 >= n {
        return false;
    }
    let mut j: usize = e + 1;
    while j < n && is_digit_exec(t[j])
        invariant
            e + 1 <= j <= n,
            forall|k: int| e + 1 <= k < j ==> is_digit(t@[k]),
        decreases n - j,
    {
        j += 1;
    }
    proof {
        lemma_digits_end_is(t@, e + 1 as int, j as int);
    }
    j == n
}

/// Build the document value of a bare token.
pub fn classify_chars(c: Vec<char>) -> (v: Value)
    ensures
        v.vm() == classify_bare(c@),
{
    if c.len() == 3 && c[0] == 'y' && c[1] == 'e' && c[2] == 's' {
        proof {
            assert(c@ =~= yes_chars());
        }
        Value::Bool(true)
    } else if c.len() == 2 && c[0] == 'n' && c[1] == 'o' {
        proof {
            assert(c@ =~= no_chars());
        }
        Value::Bool(false)
    } else {
        proof {
            assert(c@ != yes_chars());
            assert(c@ != no_chars());
        }
        if is_number_exec(&c) {
            Value::Num(chars_to_string(&c))
        } else {
            Value::Str(chars_to_string(&c))
        }
    }
}

/// One partially built block, executable side.
pub struct Frame {
    pub entries: Vec<(String, Value)>,
    pub elems: Vec<Value>,
    pub pending: Option<(bool, Vec<char>)>,
    pub key: Option<Vec<char>>,
}

impl Frame {
    /// Model of this frame.
    pub open spec fn fm(self) -> FrameS {
        FrameS {
            entries: entries_model(self.entries@),
            elems: arr_model(self.elems@),
            pending: match self.pending {
                None => None,
                Some((q, c)) => Some(
                    if q {
                        Tok::Quoted(c@)
                    } else {
                        Tok::Bare(c@)
                    },
                ),
            },
            key: match self.key {
                None => None,
                Some(k) => Some(k@),
            },
        }
    }

    /// A frame with nothing collected yet.
    pub fn empty() -> (f: Frame)
        ensures
            f.fm() == empty_frame(),
    {
        let f = Frame { entries: Vec::new(), elems: Vec::new(), pending: None, key: None };
        proof {
            assert(entries_model(f.entries@) =~= empty_frame().entries);
            assert(arr_model(f.elems@) =~= empty_frame().elems);
        }
        f
    }
}

/// Parser state, executable side.
pub struct PState {
    pub stack: Vec<Frame>,
    pub top: Frame,
}

/// Models of a stack of frames.
pub open spec fn stack_model(fs: Seq<Frame>) -> Seq<FrameS> {
    Seq::new(fs.len(), |i: int| fs[i].fm())
}

impl PState {
    /// Model of this state.
    pub open spec fn sm(self) -> PStateS {
        PStateS { stack: stack_model(self.stack@), top: self.top.fm() }
    }
}

/// Value of a pending scalar.
fn pending_value(q: bool, c: Vec<char>) -> (v: Value)
    ensures
        v.vm() == tok_value(
            if q {
                Tok::Quoted(c@)
            } else {
                Tok::Bare(c@)
            },
        ),
{
    if q {
        Value::Str(chars_to_string(&c))
    } else {
        classify_chars(c)
    }
}

/// Move a pending scalar, if any, to the frame's array elements.
fn flush_frame(f: Frame) -> (r: Frame)
    ensures
        r.fm() == flush_pending(f.fm()),
{
    let Frame { entries, mut elems, pending, key } = f;
    match pending {
        None => Frame { entries, elems, pending: None, key },
        Some((q, c)) => {
            let ghost before = elems@;
            let v = pending_value(q, c);
            elems.push(v);
            proof {
                assert(arr_model(elems@) =~= arr_model(before).push(v.vm()));
            }
            Frame { entries, elems, pending: None, key }
        },
    }
}

/// Attach a finished block value to its parent frame.
fn attach_exec(parent: Frame, v: Value) -> (r: Frame)
    ensures
        r.fm() == attach(parent.fm(), v.vm()),
{
    let Frame { mut entries, mut elems, pending, key } = parent;
    match key {
        Some(k) => {
            let ks = chars_to_string(&k);
            entries_insert(&mut entries, ks, v);
            Frame { entries, elems, pending, key: None }
        },
        None => {
            let ghost before = elems@;
            let ghost vmod = v.vm();
            elems.push(v);
            proof {
                assert(arr_model(elems@) =~= arr_model(before).push(vmod));
            }
            Frame { entries, elems, pending, key: None }
        },
    }
}

/// One executable parser step; `Err` is a grammar error.
fn do_step(st: PState, t: Token) -> (r: Result<PState, ()>)
    ensures
        match r {
            Ok(st2) => step(st.sm(), t.tm()) == Some(st2.sm()),
            Err(_) => step(st.sm(), t.tm()) is None,
        },
{
    let ghost pre = st.sm();
    let PState { mut stack, top } = st;
    match t.kind {
        TokenKind::Eq => {
            let Frame { entries, elems, pending, key } = top;
            match (pending, key) {
                (Some((q, c)), None) => {
                    let st2 = PState {
                        stack,
                        top: Frame { entries, elems, pending: None, key: Some(c) },
                    };
                    proof {
                        assert(step(pre, t.tm())->Some_0 =~~= st2.sm());
                    }
                    Ok(st2)
                },
                (p, k) => Err(()),
            }
        },
        TokenKind::Quoted(c) => {
            do_scalar(stack, top, true, c)
        },
        TokenKind::Bare(c) => {
            do_scalar(stack, top, false, c)
        },
        TokenKind::Open => {
            let f = if top.key.is_some() {
                top
            } else {
                flush_frame(top)
            };
            let ghost fs = stack@;
            stack.push(f);
            proof {
                assert(stack_model(stack@) =~= stack_model(fs).push(f.fm()));
            }
            let st2 = PState { stack, top: Frame::empty() };
            proof {
                assert(step(pre, t.tm())->Some_0 =~~= st2.sm());
            }
            Ok(st2)
        },
        TokenKind::Close => {
            if top.key.is_some() {
                return Err(());
            }
            let f = flush_frame(top);
            let Frame { entries, elems, pending, key } = f;
            if elems.len() > 0 && entries.len() > 0 {
                return Err(());
            }
            let ghost ems = entries@;
            let ghost elsm = elems@;
            let v = if elems.len() == 0 {
                Value::Object(entries)
            } else {
                Value::Array(elems)
            };
            proof {
                lemma_vm_pairs(ems);
                lemma_vm_list(elsm);
            }
            match stack.pop() {
                None => Err(()),
                Some(parent) => {
                    proof {
                        assert(stack_model(stack@) =~= stack_model(stack@.push(parent)).drop_last());
                        assert(pre.stack =~= stack_model(stack@).push(parent.fm()));
                    }
                    let parent2 = attach_exec(parent, v);
                    let st2 = PState { stack, top: parent2 };
                    proof {
                        assert(step(pre, t.tm())->Some_0 =~~= st2.sm());
                    }
                    Ok(st2)
                },
            }
        },
    }
}

/// A scalar token: the value under a waiting key, or a pending scalar.
fn do_scalar(stack: Vec<Frame>, top: Frame, quoted: bool, c: Vec<char>) -> (r: Result<
    PState,
    (),
>)
    ensures
        r matches Ok(st2) && step(
            PState { stack, top }.sm(),
            if quoted {
                Tok::Quoted(c@)
            } else {
                Tok::Bare(c@)
            },
        ) == Some(st2.sm()),
{
    let ghost pre = PState { stack, top }.sm();
    let ghost t = if quoted {
        Tok::Quoted(c@)
    } else {
        Tok::Bare(c@)
    };
    let Frame { mut entries, elems, pending, key } = top;
    match key {
        Some(k) => {
            let ks = chars_to_string(&k);
            let ghost before = entries_model(entries@);
            let v = pending_value(quoted, c);
            entries_insert(&mut entries, ks, v);
            let st2 = PState { stack, top: Frame { entries, elems, pending, key: None } };
            proof {
                assert(step(pre, t) is Some);
                assert(step(pre, t)->Some_0 =~~= st2.sm());
            }
            Ok(st2)
        },
        None => {
            let f2 = flush_frame(Frame { entries, elems, pending, key: None });
            let Frame { entries, elems, pending: _, key } = f2;
            let st2 = PState {
                stack,
                top: Frame { entries, elems, pending: Some((quoted, c)), key },
            };
            proof {
                assert(step(pre, t) is Some);
                assert(step(pre, t)->Some_0 =~~= st2.sm());
            }
            Ok(st2)
        },
    }
}

/// Build the document of a token stream; `Err` carries the character
/// position of the offending token (or zero at end of input).
#[verifier::loop_isolation(false)]
pub fn parse_tokens(ts: Vec<Token>) -> (r: Result<Value, FormatError>)
    ensures
        match r {
            Ok(v) => spec_parse_toks(toks_model(ts@)) == Some(v.vm()) && vm_wf(v.vm())
                && v.vm() is Obj,
            Err(_) => spec_parse_toks(toks_model(ts@)) is None,
        },
{
    let ghost all = toks_model(ts@);
    let mut rest = ts;
    let mut st = PState { stack: Vec::new(), top: Frame::empty() };
    proof {
        assert(stack_model(st.stack@) =~= init_state().stack);
        assert(st.sm() == init_state());
        assert(toks_model(rest@) =~= all);
    }
    while rest.len() > 0
        invariant
            run_toks(all, init_state()) == run_toks(toks_model(rest@), st.sm()),
        decreases rest@.len(),
    {
        let ghost restm = toks_model(rest@);
        let ghost pre = st.sm();
        let t = rest.remove(0);
        let tpos = t.pos;
        proof {
            assert(restm[0] == t.tm());
            assert(restm.drop_first() =~= toks_model(rest@));
        }
        match do_step(st, t) {
            Ok(st2) => {
                st = st2;
            },
            Err(_) => {
                proof {
                    assert(run_toks(restm, pre) is None);
                }
                return Err(FormatError { pos: tpos, line: 1 });
            },
        }
    }
    proof {
        assert(toks_model(rest@) =~= Seq::<Tok>::empty());
        assert(run_toks(all, init_state()) == Some(st.sm()));
    }
    let PState { stack, top } = st;
    let Frame { entries, elems, pending, key } = top;
    if stack.len() == 0 && elems.len() == 0 && pending.is_none() && key.is_none() {
        let ghost ems = entries@;
        let v = Value::Object(entries);
        proof {
            lemma_vm_pairs(ems);
            assert(finish(st.sm()) == Some(v.vm()));
            lemma_parse_wf(all);
        }
        Ok(v)
    } else {
        proof {
            assert(finish(st.sm()) is None);
        }
        Err(FormatError { pos: 0, line: 1 })
    }
}

/// Newlines strictly before position `p`.
pub open spec fn newlines_before(s: Seq<char>, p: int) -> int
    decreases p,
{
    if p <= 0 {
        0
    } else {
        newlines_before(s, p - 1) + if 0 <= p - 1 < s.len() && s[p - 1] == '\n' {
            1int
        } else {
            0int
        }
    }
}

/// One-based line number of a character position.
#[verifier::loop_isolation(false)]
pub fn line_of(cs: &Vec<char>, pos: usize) -> (l: usize)
    ensures
        l as int == if newlines_before(cs@, pos as int) + 1 <= usize::MAX as int {
            newlines_before(cs@, pos as int) + 1
        } else {
            usize::MAX as int
        },
{
    let n = cs.len();
    let stop: usize = if pos < n {
        pos
    } else {
        n
    };
    let mut cnt: usize = 0;
    let mut i: usize = 0;
    proof {
        lemma_newlines_clamp(cs@, stop as int, pos as int);
    }
    while i < stop
        invariant
            0 <= i <= stop,
            cnt == newlines_before(cs@, i as int),
            cnt <= i,
        decreases stop - i,
    {
        if cs[i] == '\n' {
            cnt += 1;
        }
        i += 1;
    }
    if cnt < usize::MAX {
        cnt + 1
    } else {
        cnt
    }
}

/// Positions past the end of the input add no newlines.
proof fn lemma_newlines_clamp(s: Seq<char>, stop: int, p: int)
    requires
        0 <= stop <= p,
        stop == if p < s.len() {
            p
        } else {
            s.len() as int
        },
    ensures
        newlines_before(s, p) == newlines_before(s, stop),
    decreases p,
{
    if p > stop {
        lemma_newlines_clamp(s, stop, p - 1);
    }
}

/// Parse a raw byte buffer into its document: decode every byte under the
/// code page, tokenize, and build the tree. Returns the document exactly
/// when the grammar accepts the input; the error carries a best-effort
/// position.
pub fn parse(bytes: &Vec<u8>) -> (r: Result<Value, FormatError>)
    ensures
        match r {
            Ok(v) => spec_parse(bytes@) == Some(v.vm()) && vm_wf(v.vm()) && v.vm() is Obj,
            Err(_) => spec_parse(bytes@) is None,
        },
{
    let cs = decode_bytes(bytes);
    match tokenize(&cs) {
        Err(pos) => {
            let line = line_of(&cs, pos);
            Err(FormatError { pos, line })
        },
        Ok(ts) => match parse_tokens(ts) {
            Ok(v) => Ok(v),
            Err(e) => {
                let line = line_of(&cs, e.pos);
                Err(FormatError { pos: e.pos, line })
            },
        },
    }
}

/// An accepted parse is a well-formed document.
pub proof fn lemma_parse_wf(ts: Seq<Tok>)
    requires
        spec_parse_toks(ts) is Some,
    ensures
        vm_wf(spec_parse_toks(ts)->Some_0),
        spec_parse_toks(ts)->Some_0 is Obj,
{
    lemma_run_wf(ts, init_state());
    let stf = run_toks(ts, init_state())->Some_0;
    assert(frame_wf(stf.top));
    crate::value::lemma_wf_entries(stf.top.entries);
    assert(spec_parse_toks(ts)->Some_0 == ValueModel::Obj(stf.top.entries));
    assert(vm_wf(ValueModel::Obj(stf.top.entries)));
}

} // verus!
