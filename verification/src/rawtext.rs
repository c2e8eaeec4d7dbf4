//! Raw-text extraction over the decoded save text. The tree model collapses
//! repeated keys, so these operations recover entry blocks and repeated
//! field values straight from the characters: a section header is
//! `\n<section>=` followed by `{`, an entry header is one of three
//! tab-indented patterns, and a block ends where its braces balance.

use vstd::prelude::*;

use crate::encoding::chars_range_to_string;

verus! {

/// `needle` matches `hay` exactly at position `i`.
pub open spec fn cmatch_at(hay: Seq<char>, needle: Seq<char>, i: int) -> bool {
    &&& 0 <= i
    &&& i + needle.len() <= hay.len()
    &&& hay.subrange(i, i + needle.len() as int) == needle
}

/// First position at or after `from` where `needle` occurs in `hay`.
pub open spec fn cfind_from(hay: Seq<char>, needle: Seq<char>, from: int) -> Option<int>
    decreases hay.len() + 1 - from,
{
    if from + needle.len() > hay.len() {
        None
    } else if cmatch_at(hay, needle, from) {
        Some(from)
    } else {
        cfind_from(hay, needle, from + 1)
    }
}

/// A successful find lies at or after `from` and within bounds.
pub proof fn lemma_cfind_bounds(hay: Seq<char>, needle: Seq<char>, from: int)
    ensures
        match cfind_from(hay, needle, from) {
            Some(i) => from <= i && i + needle.len() <= hay.len() && cmatch_at(hay, needle, i),
            None => true,
        },
    decreases hay.len() + 1 - from,
{
    if from + needle.len() > hay.len() {
    } else if cmatch_at(hay, needle, from) {
    } else {
        lemma_cfind_bounds(hay, needle, from + 1);
    }
}

/// A found match at `i`, with no match between `from` and `i`, pins the
/// find down; no match anywhere at or after `from` pins it to `None`.
pub proof fn lemma_cfind_is(hay: Seq<char>, needle: Seq<char>, from: int, i: int)
    requires
        from <= i,
        cmatch_at(hay, needle, i),
        forall|t: int| from <= t < i ==> !cmatch_at(hay, needle, t),
    ensures
        cfind_from(hay, needle, from) == Some(i),
    decreases i - from,
{
    if from < i {
        lemma_cfind_is(hay, needle, from + 1, i);
    }
}

/// No match anywhere at or after `from` pins the find to `None`.
pub proof fn lemma_cfind_none(hay: Seq<char>, needle: Seq<char>, from: int)
    requires
        forall|t: int| from <= t ==> !cmatch_at(hay, needle, t),
    ensures
        cfind_from(hay, needle, from) is None,
    decreases hay.len() + 1 - from,
{
    if from + needle.len() <= hay.len() {
        lemma_cfind_none(hay, needle, from + 1);
    }
}

/// Whether `needle` matches `hay` at position `i`, checked character by
/// character.
fn cmatch_exec(hay: &Vec<char>, needle: &Vec<char>, i: usize) -> (r: bool)
    requires
        i + needle@.len() <= hay@.len(),
    ensures
        r == cmatch_at(hay@, needle@, i as int),
{
    let n = hay.len();
    let mut j: usize = 0;
    while j < needle.len()
        invariant
            0 <= j <= needle@.len(),
            i + needle@.len() <= hay@.len(),
            n == hay@.len(),
            forall|t: int| 0 <= t < j ==> hay@[i + t] == needle@[t],
        decreases needle@.len() - j,
    {
        if hay[i + j] != needle[j] {
            assert(hay@.subrange(i as int, i + needle@.len() as int)[j as int] != needle@[j as int]);
            return false;
        }
        j += 1;
    }
    assert(hay@.subrange(i as int, i + needle@.len() as int) =~= needle@);
    true
}

/// First position at or after `from` where `needle` occurs in `hay`.
pub fn cfind_exec(hay: &Vec<char>, needle: &Vec<char>, from: usize) -> (r: Option<usize>)
    ensures
        cfind_from(hay@, needle@, from as int) == (match r {
            Some(i) => Some(i as int),
            None => None::<int>,
        }),
        r matches Some(i) ==> from <= i && i + needle@.len() <= hay@.len(),
{
    if needle.len() > hay.len() {
        proof {
            lemma_cfind_none(hay@, needle@, from as int);
        }
        return None;
    }
    let last = hay.len() - needle.len();
    if from > last {
        proof {
            lemma_cfind_none(hay@, needle@, from as int);
        }
        return None;
    }
    let mut i: usize = from;
    loop
        invariant
            from <= i <= last,
            last == hay@.len() - needle@.len(),
            forall|t: int| from <= t < i ==> !cmatch_at(hay@, needle@, t),
        decreases last - i,
    {
        if cmatch_exec(hay, needle, i) {
            proof {
                lemma_cfind_is(hay@, needle@, from as int, i as int);
            }
            return Some(i);
        }
        if i == last {
            proof {
                lemma_cfind_none(hay@, needle@, from as int);
            }
            return None;
        }
        i += 1;
    }
}

/// Start of the content of `section`: just after the `{` that follows the
/// `\n<section>=` header.
pub open spec fn section_content_start(hay: Seq<char>, section: Seq<char>) -> Option<int> {
    match cfind_from(hay, seq!['\n'] + section + seq!['='], 0) {
        None => None,
        Some(p) => match cfind_from(hay, seq!['{'], p) {
            None => None,
            Some(q) => Some(q + 1),
        },
    }
}

/// Entry header patterns, in priority order: key, `=`, newline and brace;
/// key and `={`; key and ` =`.
pub open spec fn entry_pat_a(key: Seq<char>) -> Seq<char> {
    seq!['\n', '\t'] + key + seq!['=', '\n', '\t', '{']
}

pub open spec fn entry_pat_b(key: Seq<char>) -> Seq<char> {
    seq!['\n', '\t'] + key + seq!['=', '{']
}

pub open spec fn entry_pat_c(key: Seq<char>) -> Seq<char> {
    seq!['\n', '\t'] + key + seq![' ', '=']
}

/// Start of the entry for `key` at or after `from`: the first pattern, in
/// priority order, that occurs anywhere.
pub open spec fn entry_start(hay: Seq<char>, key: Seq<char>, from: int) -> Option<int> {
    match cfind_from(hay, entry_pat_a(key), from) {
        Some(i) => Some(i),
        None => match cfind_from(hay, entry_pat_b(key), from) {
            Some(i) => Some(i),
            None => cfind_from(hay, entry_pat_c(key), from),
        },
    }
}

/// Position just past the brace that balances the block starting at `i`:
/// scan forward counting braces, done when the count returns to zero after
/// the first `{`; the end of input if the braces never balance.
pub open spec fn brace_end_from(hay: Seq<char>, i: int, depth: int, started: bool) -> int
    decreases hay.len() - i,
{
    if i < 0 || i >= hay.len() {
        hay.len() as int
    } else if hay[i] == '{' {
        brace_end_from(hay, i + 1, depth + 1, true)
    } else if hay[i] == '}' {
        if started && depth == 1 {
            i + 1
        } else {
            brace_end_from(hay, i + 1, depth - 1, started)
        }
    } else {
        brace_end_from(hay, i + 1, depth, started)
    }
}

/// The balanced end of a block lies between its start and the end of
/// input.
pub proof fn lemma_brace_end_bounds(hay: Seq<char>, i: int, depth: int, started: bool)
    requires
        0 <= i <= hay.len(),
    ensures
        i <= brace_end_from(hay, i, depth, started) <= hay.len(),
    decreases hay.len() - i,
{
    if i < hay.len() {
        lemma_brace_end_bounds(hay, i + 1, depth + 1, true);
        lemma_brace_end_bounds(hay, i + 1, depth - 1, started);
        lemma_brace_end_bounds(hay, i + 1, depth, started);
    }
}

/// Position just past the balancing brace of the block at `i`.
#[verifier::loop_isolation(false)]
pub fn brace_end_exec(hay: &Vec<char>, start: usize) -> (r: usize)
    requires
        start <= hay@.len(),
    ensures
        r as int == brace_end_from(hay@, start as int, 0, false),
        start <= r <= hay@.len(),
{
    let n = hay.len();
    let mut i: usize = start;
    let mut depth: i128 = 0;
    let mut started = false;
    proof {
        lemma_brace_end_bounds(hay@, start as int, 0, false);
    }
    loop
        invariant
            start <= i <= n,
            brace_end_from(hay@, start as int, 0, false) == brace_end_from(
                hay@,
                i as int,
                depth as int,
                started,
            ),
            -(i as int - start as int) <= depth as int <= i as int - start as int,
        decreases n - i,
    {
        if i >= n {
            return n;
        }
        let c = hay[i];
        if c == '{' {
            depth = depth + 1;
            started = true;
        } else if c == '}' {
            if started && depth == 1 {
                proof {
                    lemma_brace_end_bounds(hay@, start as int, 0, false);
                }
                return i + 1;
            }
            depth = depth - 1;
        }
        i += 1;
    }
}

/// Views of a sequence of strings.
pub open spec fn strings_model(ss: Seq<String>) -> Seq<Seq<char>> {
    Seq::new(ss.len(), |i: int| ss[i]@)
}

/// Every `field="value"` occurrence in the block at or after `from`, in
/// source order: the text between the pattern and the next quote.
pub open spec fn field_values_from(block: Seq<char>, field: Seq<char>, from: int) -> Seq<Seq<char>>
    decreases block.len() + 1 - from,
    via field_values_decreases
{
    match cfind_from(block, field + seq!['=', '"'], from) {
        None => Seq::empty(),
        Some(p) => {
            let vstart = p + field.len() + 2;
            match cfind_from(block, seq!['"'], vstart) {
                None => Seq::empty(),
                Some(vend) => seq![block.subrange(vstart, vend)] + field_values_from(
                    block,
                    field,
                    vend + 1,
                ),
            }
        },
    }
}

#[via_fn]
proof fn field_values_decreases(block: Seq<char>, field: Seq<char>, from: int) {
    lemma_cfind_bounds(block, field + seq!['=', '"'], from);
    match cfind_from(block, field + seq!['=', '"'], from) {
        None => {},
        Some(p) => {
            lemma_cfind_bounds(block, seq!['"'], p + field.len() + 2);
        },
    }
}

/// Append all characters of `src`.
fn push_all(dst: &mut Vec<char>, src: &Vec<char>)
    ensures
        final(dst)@ == old(dst)@ + src@,
{
    let mut i: usize = 0;
    while i < src.len()
        invariant
            0 <= i <= src@.len(),
            dst@ =~= old(dst)@ + src@.subrange(0, i as int),
        decreases src@.len() - i,
    {
        dst.push(src[i]);
        assert(dst@ =~= old(dst)@ + src@.subrange(0, i + 1 as int));
        i += 1;
    }
    assert(dst@ =~= old(dst)@ + src@);
}

/// All values assigned to `field` in the block, decoded, in source order.
#[verifier::loop_isolation(false)]
fn field_values_exec(block: &Vec<char>, field: &Vec<char>) -> (r: Vec<String>)
    ensures
        strings_model(r@) == field_values_from(block@, field@, 0),
{
    let mut pat: Vec<char> = Vec::new();
    push_all(&mut pat, field);
    pat.push('=');
    pat.push('"');
    proof {
        assert(pat@ =~= field@ + seq!['=', '"']);
    }
    let mut quote: Vec<char> = Vec::new();
    quote.push('"');
    proof {
        assert(quote@ =~= seq!['"']);
    }
    let bn = block.len();
    let mut acc: Vec<String> = Vec::new();
    let mut pos: usize = 0;
    loop
        invariant
            bn == block@.len(),
            pat@ == field@ + seq!['=', '"'],
            quote@ == seq!['"'],
            field_values_from(block@, field@, 0) == strings_model(acc@) + field_values_from(
                block@,
                field@,
                pos as int,
            ),
        decreases block@.len() + 1 - pos,
    {
        match cfind_exec(block, &pat, pos) {
            None => {
                proof {
                    assert(strings_model(acc@) + Seq::<Seq<char>>::empty() =~= strings_model(
                        acc@,
                    ));
                }
                return acc;
            },
            Some(p) => {
                proof {
                    assert(pat@.len() == field@.len() + 2);
                }
                let vstart = p + field.len() + 2;
                match cfind_exec(block, &quote, vstart) {
                    None => {
                        proof {
                            assert(strings_model(acc@) + Seq::<Seq<char>>::empty()
                                =~= strings_model(acc@));
                        }
                        return acc;
                    },
                    Some(vend) => {
                        let ghost acc0 = acc@;
                        let sv = chars_range_to_string(block, vstart, vend);
                        acc.push(sv);
                        proof {
                            assert(strings_model(acc@) =~= strings_model(acc0).push(sv@));
                            assert(strings_model(acc0) + (seq![block@.subrange(
                                vstart as int,
                                vend as int,
                            )] + field_values_from(block@, field@, vend + 1 as int))
                                =~= strings_model(acc@) + field_values_from(
                                block@,
                                field@,
                                vend + 1 as int,
                            ));
                        }
                        pos = vend + 1;
                    },
                }
            },
        }
    }
}

/// Start of the content of `section`, executable side.
fn section_start_exec(hay: &Vec<char>, section: &Vec<char>) -> (r: Option<usize>)
    ensures
        section_content_start(hay@, section@) == (match r {
            Some(i) => Some(i as int),
            None => None::<int>,
        }),
        r matches Some(i) ==> i <= hay@.len(),
{
    let mut pat: Vec<char> = Vec::new();
    pat.push('\n');
    push_all(&mut pat, section);
    pat.push('=');
    proof {
        assert(pat@ =~= seq!['\n'] + section@ + seq!['=']);
    }
    let mut brace: Vec<char> = Vec::new();
    brace.push('{');
    proof {
        assert(brace@ =~= seq!['{']);
    }
    let n = hay.len();
    match cfind_exec(hay, &pat, 0) {
        None => None,
        Some(p) => match cfind_exec(hay, &brace, p) {
            None => None,
            Some(q) => {
                proof {
                    assert(brace@.len() == 1);
                    assert(q + 1 <= n);
                }
                Some(q + 1)
            },
        },
    }
}

/// Start of the entry for `key`, executable side.
fn entry_start_exec(hay: &Vec<char>, key: &Vec<char>, from: usize) -> (r: Option<usize>)
    ensures
        entry_start(hay@, key@, from as int) == (match r {
            Some(i) => Some(i as int),
            None => None::<int>,
        }),
        r matches Some(i) ==> i <= hay@.len(),
{
    let mut pat_a: Vec<char> = Vec::new();
    pat_a.push('\n');
    pat_a.push('\t');
    push_all(&mut pat_a, key);
    pat_a.push('=');
    pat_a.push('\n');
    pat_a.push('\t');
    pat_a.push('{');
    proof {
        assert(pat_a@ =~= entry_pat_a(key@));
    }
    match cfind_exec(hay, &pat_a, from) {
        Some(i) => Some(i),
        None => {
            let mut pat_b: Vec<char> = Vec::new();
            pat_b.push('\n');
            pat_b.push('\t');
            push_all(&mut pat_b, key);
            pat_b.push('=');
            pat_b.push('{');
            proof {
                assert(pat_b@ =~= entry_pat_b(key@));
            }
            match cfind_exec(hay, &pat_b, from) {
                Some(i) => Some(i),
                None => {
                    let mut pat_c: Vec<char> = Vec::new();
                    pat_c.push('\n');
                    pat_c.push('\t');
                    push_all(&mut pat_c, key);
                    pat_c.push(' ');
                    pat_c.push('=');
                    proof {
                        assert(pat_c@ =~= entry_pat_c(key@));
                    }
                    match cfind_exec(hay, &pat_c, from) {
                        Some(i) => Some(i),
                        None => None,
                    }
                },
            }
        },
    }
}

/// Model of an optional cached offset.
pub open spec fn opt_model(o: Option<usize>) -> Option<int> {
    match o {
        Some(v) => Some(v as int),
        None => None,
    }
}

/// Outcome of duplicate-value extraction: the values of every
/// `field="value"` occurrence in the entry's block in source order, a
/// found flag, and the section content offset for reuse within a batch.
pub open spec fn spec_extract_duplicates(
    hay: Seq<char>,
    section: Seq<char>,
    key: Seq<char>,
    field: Seq<char>,
    cached: Option<int>,
) -> (Seq<Seq<char>>, bool, Option<int>) {
    let sstart = match cached {
        Some(s) => Some(s),
        None => section_content_start(hay, section),
    };
    match sstart {
        None => (Seq::<Seq<char>>::empty(), false, None::<int>),
        Some(cs) => match entry_start(hay, key, cs) {
            None => (Seq::<Seq<char>>::empty(), false, Some(cs)),
            Some(es) => {
                let be = brace_end_from(hay, es, 0, false);
                (field_values_from(hay.subrange(es, be), field, 0), true, Some(cs))
            },
        },
    }
}

/// Outcome of raw entry text extraction: the entry's block verbatim and a
/// found flag.
pub open spec fn spec_entry_text(
    hay: Seq<char>,
    section: Seq<char>,
    key: Seq<char>,
    cached: Option<int>,
) -> (Seq<char>, bool) {
    let sstart = match cached {
        Some(s) => Some(s),
        None => section_content_start(hay, section),
    };
    match sstart {
        None => (Seq::<char>::empty(), false),
        Some(cs) => match entry_start(hay, key, cs) {
            None => (Seq::<char>::empty(), false),
            Some(es) => {
                let be = brace_end_from(hay, es, 0, false);
                (hay.subrange(es, be), true)
            },
        },
    }
}

/// Recover every value repeatedly assigned to `field` inside the entry
/// `section[key]`, scanning the decoded save text; the tree model cannot
/// hold these. Also hands back the section's content offset so that later
/// lookups in the same batch can skip the section scan.
pub fn extract_duplicate_values(
    content: &Vec<char>,
    section: &str,
    key: &str,
    field: &str,
    cached_section_start: Option<usize>,
) -> (r: (Vec<String>, bool, Option<usize>))
    ensures
        ({
            let s = spec_extract_duplicates(
                content@,
                section@,
                key@,
                field@,
                opt_model(cached_section_start),
            );
            strings_model(r.0@) == s.0 && r.1 == s.1 && opt_model(r.2) == s.2
        }),
{
    let sec_chars = crate::serializer::string_to_chars(section);
    let key_chars = crate::serializer::string_to_chars(key);
    let field_chars = crate::serializer::string_to_chars(field);
    let sstart: Option<usize> = match cached_section_start {
        Some(s) => Some(s),
        None => section_start_exec(content, &sec_chars),
    };
    match sstart {
        None => {
            proof {
                assert(strings_model(Seq::<String>::empty()) =~= Seq::<Seq<char>>::empty());
            }
            (Vec::new(), false, None)
        },
        Some(cs) => match entry_start_exec(content, &key_chars, cs) {
            None => {
                proof {
                    assert(strings_model(Seq::<String>::empty()) =~= Seq::<Seq<char>>::empty());
                }
                (Vec::new(), false, Some(cs))
            },
            Some(es) => {
                let be = brace_end_exec(content, es);
                let block = crate::token::vec_range(content, es, be);
                let values = field_values_exec(&block, &field_chars);
                (values, true, Some(cs))
            },
        },
    }
}

/// Recover the raw text of the entry `section[key]` verbatim, for callers
/// that apply their own recovery beyond single-field extraction.
pub fn extract_entry_text(
    content: &Vec<char>,
    section: &str,
    key: &str,
    cached_section_start: Option<usize>,
) -> (r: (String, bool))
    ensures
        ({
            let s = spec_entry_text(content@, section@, key@, opt_model(cached_section_start));
            r.0@ == s.0 && r.1 == s.1
        }),
{
    let sec_chars = crate::serializer::string_to_chars(section);
    let key_chars = crate::serializer::string_to_chars(key);
    let sstart: Option<usize> = match cached_section_start {
        Some(s) => Some(s),
        None => section_start_exec(content, &sec_chars),
    };
    match sstart {
        None => (String::new(), false),
        Some(cs) => match entry_start_exec(content, &key_chars, cs) {
            None => (String::new(), false),
            Some(es) => {
                let be = brace_end_exec(content, es);
                let text = chars_range_to_string(content, es, be);
                (text, true)
            },
        },
    }
}

} // verus!
