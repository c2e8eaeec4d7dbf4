//! The session protocol: request and response shapes, the per-request
//! handlers, multi-op batching with its batch-scoped section-offset cache,
//! and schema-version validation.

use vstd::prelude::*;

use crate::error::SCHEMA_VERSION;
use crate::parser::is_digit;
use crate::query::{
    counts_model, gs_entries, matches_model, meta_model, spec_extract_sections,
    spec_get_country_summaries, spec_get_entries, spec_get_entry, kv_sections, count_sections,
    sat, opt_strings, values_model, ParsedSave,
};
use crate::rawtext::{
    section_content_start, spec_entry_text, spec_extract_duplicates, strings_model,
};
use crate::search::contains_sub;
use crate::serializer::escape_str;
use crate::value::{entries_model, obj_get, Value, ValueModel};

verus! {

/// A request message of the session protocol.
pub enum Request {
    ExtractSections { sections: Vec<String> },
    IterSection { section: String, batch_size: usize },
    GetEntry { section: String, key: String },
    GetEntries { section: String, keys: Vec<String>, fields: Option<Vec<String>> },
    CountKeys { keys: Vec<String> },
    ContainsTokens { tokens: Vec<String> },
    ContainsKv { pairs: Vec<(String, String)> },
    GetCountrySummaries { fields: Vec<String> },
    GetDuplicateValues { section: String, key: String, field: String },
    GetEntryText { section: String, key: String },
    Multi { ops: Vec<MultiOp> },
    Close,
}

/// An operation that can be batched in a multi-op request. The streaming
/// iterate and the close control message are excluded.
pub enum MultiOp {
    ExtractSections { sections: Vec<String> },
    GetEntry { section: String, key: String },
    GetEntries { section: String, keys: Vec<String>, fields: Option<Vec<String>> },
    CountKeys { keys: Vec<String> },
    ContainsTokens { tokens: Vec<String> },
    ContainsKv { pairs: Vec<(String, String)> },
    GetCountrySummaries { fields: Vec<String> },
    GetDuplicateValues { section: String, key: String, field: String },
    GetEntryText { section: String, key: String },
}

/// One success message of the session protocol.
pub enum ResponseData {
    Extract { data: Value },
    SingleEntry { entry: Value, found: bool },
    MultipleEntries { entries: Vec<Value> },
    StreamHeader { op: String, section: String },
    StreamEntry { key: String, value: Value },
    StreamBatch { entries: Vec<(String, Value)> },
    StreamDone { op: String, section: String },
    Closed,
    KeyCounts { counts: Vec<(String, usize)> },
    TokenMatches { matches: Vec<(String, bool)> },
    KvMatches { matches: Vec<(String, bool)> },
    CountrySummaries { countries: Vec<Value> },
    DuplicateValues { values: Vec<String>, found: bool },
    EntryText { text: String, found: bool },
    MultiResults { results: Vec<ResponseData> },
}

/// An error envelope of the session protocol.
#[derive(Debug)]
pub struct ErrorResponse {
    pub error: String,
    pub message: String,
    pub line: Option<u32>,
    pub col: Option<u32>,
    pub exit_code: i32,
    pub schema_version: u32,
    pub tool_version: String,
    pub game: String,
}

impl ErrorResponse {
    /// Build an error envelope carrying the version constants.
    pub fn new(error: &str, message: &str, exit_code: i32) -> (r: ErrorResponse)
        ensures
            r.error@ == error@,
            r.message@ == message@,
            r.line is None && r.col is None,
            r.exit_code == exit_code,
            r.schema_version == SCHEMA_VERSION,
            r.tool_version@ == "0.1.0"@,
            r.game@ == "stellaris"@,
    {
        ErrorResponse {
            error: error.to_owned(),
            message: message.to_owned(),
            line: None,
            col: None,
            exit_code,
            schema_version: SCHEMA_VERSION,
            tool_version: "0.1.0".to_owned(),
            game: "stellaris".to_owned(),
        }
    }
}

/// Character of a decimal digit value.
pub open spec fn digit_char(d: nat) -> char {
    ((48 + d) as u8) as char
}

/// Decimal text of a number.
pub open spec fn dec_nat(n: nat) -> Seq<char>
    decreases n,
{
    if n < 10 {
        seq![digit_char(n)]
    } else {
        dec_nat(n / 10).push(digit_char(n % 10))
    }
}

/// Decimal text of a signed number.
pub open spec fn dec_int(n: int) -> Seq<char> {
    if n < 0 {
        seq!['-'] + dec_nat((-n) as nat)
    } else {
        dec_nat(n as nat)
    }
}

/// Decimal text of a number, executable side.
pub fn dec_u64(n: u64) -> (s: String)
    ensures
        s@ == dec_nat(n as nat),
    decreases n,
{
    if n < 10 {
        let mut s = String::new();
        let d: u8 = 48 + (n as u8);
        crate::encoding::push_char(&mut s, d as char);
        proof {
            assert(s@ =~= seq![digit_char(n as nat)]);
        }
        s
    } else {
        proof {
            assert(n as nat / 10 < n as nat) by (nonlinear_arith)
                requires
                    n >= 10,
            ;
        }
        let mut s = dec_u64(n / 10);
        let d: u8 = 48 + ((n % 10) as u8);
        crate::encoding::push_char(&mut s, d as char);
        proof {
            assert((n % 10) as nat == n as nat % 10) by (nonlinear_arith);
            assert((n / 10) as nat == n as nat / 10) by (nonlinear_arith);
        }
        s
    }
}

/// Decimal text of a signed number, executable side.
pub fn dec_i64(n: i64) -> (s: String)
    ensures
        s@ == dec_int(n as int),
{
    if n < 0 {
        if n == i64::MIN {
            let mut s = String::new();
            crate::encoding::push_char(&mut s, '-');
            let m = dec_u64(9223372036854775808u64);
            s.append(m.as_str());
            proof {
                assert(s@ =~= seq!['-'] + dec_nat(9223372036854775808nat));
            }
            s
        } else {
            let mut s = String::new();
            crate::encoding::push_char(&mut s, '-');
            let m = dec_u64((-n) as u64);
            s.append(m.as_str());
            proof {
                assert(s@ =~= seq!['-'] + dec_nat((-(n as int)) as nat));
            }
            s
        }
    } else {
        dec_u64(n as u64)
    }
}

/// JSON text of an error envelope: quotes and backslashes in its strings
/// escaped, the optional position fields omitted when absent.
pub open spec fn spec_error_json(e: ErrorResponse) -> Seq<char> {
    "{\"ok\":false,\"error\":\""@ + escape_str(e.error@) + "\",\"message\":\""@ + escape_str(
        e.message@,
    ) + "\""@ + (match e.line {
        Some(l) => ",\"line\":"@ + dec_nat(l as nat),
        None => Seq::<char>::empty(),
    }) + (match e.col {
        Some(c) => ",\"col\":"@ + dec_nat(c as nat),
        None => Seq::<char>::empty(),
    }) + ",\"exit_code\":"@ + dec_int(e.exit_code as int) + ",\"schema_version\":"@ + dec_nat(
        e.schema_version as nat,
    ) + ",\"tool_version\":\""@ + escape_str(e.tool_version@) + "\",\"game\":\""@ + escape_str(
        e.game@,
    ) + "\"}"@
}

impl ErrorResponse {
    /// Render this envelope as one JSON object.
    pub fn to_json(&self) -> (s: String)
        ensures
            s@ == spec_error_json(*self),
    {
        let mut s = String::new();
        s.append("{\"ok\":false,\"error\":\"");
        let esc_error = escape_exec(&self.error);
        s.append(esc_error.as_str());
        s.append("\",\"message\":\"");
        let esc_msg = escape_exec(&self.message);
        s.append(esc_msg.as_str());
        s.append("\"");
        match self.line {
            Some(l) => {
                s.append(",\"line\":");
                let d = dec_u64(l as u64);
                s.append(d.as_str());
            },
            None => {},
        }
        match self.col {
            Some(c) => {
                s.append(",\"col\":");
                let d = dec_u64(c as u64);
                s.append(d.as_str());
            },
            None => {},
        }
        s.append(",\"exit_code\":");
        let ec = dec_i64(self.exit_code as i64);
        s.append(ec.as_str());
        s.append(",\"schema_version\":");
        let sv = dec_u64(self.schema_version as u64);
        s.append(sv.as_str());
        s.append(",\"tool_version\":\"");
        let tv = escape_exec(&self.tool_version);
        s.append(tv.as_str());
        s.append("\",\"game\":\"");
        let g = escape_exec(&self.game);
        s.append(g.as_str());
        s.append("\"}");
        proof {
            assert(s@ =~= spec_error_json(*self));
        }
        s
    }
}

/// Escape quotes and backslashes in a string.
pub fn escape_exec(s: &String) -> (r: String)
    ensures
        r@ == escape_str(s@),
{
    let cs = crate::serializer::string_to_chars(s.as_str());
    let mut out = String::new();
    crate::serializer::push_escaped(&mut out, &cs);
    proof {
        assert(out@ =~= Seq::<char>::empty() + escape_str(cs@));
    }
    out
}

/// Default number of entries per streamed batch.
pub fn default_batch_size() -> (n: usize)
    ensures
        n == 100,
{
    100
}

/// Value of a decimal digit character; zero for any other character.
pub open spec fn char_digit(c: char) -> nat {
    if '0' <= c && c <= '9' {
        (c as int - 48) as nat
    } else {
        0
    }
}

/// Numeric value of a digit string, most significant first.
pub open spec fn digits_val(s: Seq<char>) -> nat
    decreases s.len(),
{
    if s.len() == 0 {
        0
    } else {
        digits_val(s.drop_last()) * 10 + char_digit(s.last())
    }
}

/// The number a schema-version string denotes: defined exactly for a
/// nonempty string of decimal digits whose value fits the version field.
pub open spec fn spec_parse_version(s: Seq<char>) -> Option<nat> {
    if s.len() > 0 && (forall|i: int| 0 <= i < s.len() ==> is_digit(s[i])) && digits_val(s)
        <= u32::MAX as nat {
        Some(digits_val(s))
    } else {
        None
    }
}

/// Validate a requested schema version: accepted exactly when it denotes
/// the supported version. The error envelope carries the invalid-argument
/// kind and its exit code, and is produced before any payload is parsed.
#[verifier::loop_isolation(false)]
pub fn validate_schema_version(schema_version: &str) -> (r: Result<(), ErrorResponse>)
    ensures
        r is Ok <==> spec_parse_version(schema_version@) == Some(SCHEMA_VERSION as nat),
        r matches Err(e) ==> e.error@ == "InvalidArgument"@ && e.exit_code == 3,
{
    let cs = crate::serializer::string_to_chars(schema_version);
    let n = cs.len();
    let mut ok = n > 0;
    let mut val: u64 = 0;
    let mut over = false;
    let mut i: usize = 0;
    while i < n
        invariant
            0 <= i <= n,
            n == cs@.len(),
            cs@ == schema_version@,
            ok ==> n > 0 && (forall|t: int| 0 <= t < i ==> is_digit(cs@[t])),
            !ok ==> n == 0 || (exists|t: int| 0 <= t < n && !is_digit(cs@[t])),
            !ok ==> i == n,
            ok && !over ==> val as nat == digits_val(cs@.subrange(0, i as int)) && val
                <= u32::MAX,
            ok && over ==> digits_val(cs@.subrange(0, i as int)) > u32::MAX as nat,
        decreases n - i,
    {
        let c = cs[i];
        if !('0' <= c && c <= '9') {
            ok = false;
            proof {
                assert(!is_digit(cs@[i as int]));
            }
            i = n;
        } else {
            let d: u64 = (c as u64) - 48;
            let ghost pre = cs@.subrange(0, i as int);
            proof {
                assert(cs@.subrange(0, i + 1 as int).drop_last() =~= pre);
                assert(cs@.subrange(0, i + 1 as int).last() == cs@[i as int]);
                assert(digits_val(cs@.subrange(0, i + 1 as int)) == digits_val(pre) * 10
                    + char_digit(cs@[i as int]));
                assert(char_digit(cs@[i as int]) == d as nat);
            }
            if !over {
                let nv: u64 = val * 10 + d;
                if nv > u32::MAX as u64 {
                    over = true;
                } else {
                    val = nv;
                }
            } else {
                proof {
                    let prev = digits_val(pre);
                    assert(prev * 10 >= prev) by (nonlinear_arith);
                }
            }
            i += 1;
        }
    }
    proof {
        if i == n {
            assert(cs@.subrange(0, n as int) =~= cs@);
        }
    }
    if ok && !over && val == SCHEMA_VERSION as u64 {
        proof {
            assert(cs@.subrange(0, n as int) =~= cs@);
        }
        Ok(())
    } else {
        let mut msg = "Unsupported schema version: ".to_owned();
        msg.append(schema_version);
        let e = ErrorResponse::new("InvalidArgument", msg.as_str(), 3);
        proof {
            if ok && i == n {
                assert(forall|t: int| 0 <= t < n ==> is_digit(cs@[t]));
                if !over {
                    assert(val as nat == digits_val(cs@));
                }
            }
        }
        Err(e)
    }
}

/// Start a session: the schema version is validated before any payload is
/// parsed, so an unsupported version is answered with the invalid-argument
/// envelope whatever the payloads hold; then both payloads are parsed
/// once. Under the supported version the session starts exactly when both
/// payloads satisfy the grammar, and a grammar failure is answered with
/// the parse-error envelope and its exit code.
pub fn start_session(
    schema_version: &str,
    gamestate_bytes: Vec<u8>,
    meta_bytes: Option<Vec<u8>>,
) -> (r: Result<ParsedSave, ErrorResponse>)
    ensures
        spec_parse_version(schema_version@) != Some(SCHEMA_VERSION as nat) ==> (r matches Err(e)
            && e.error@ == "InvalidArgument"@ && e.exit_code == 3),
        spec_parse_version(schema_version@) == Some(SCHEMA_VERSION as nat) ==> ((r is Ok) <==> (
        crate::parser::spec_parse(gamestate_bytes@) is Some && (meta_bytes matches Some(mb)
            ==> crate::parser::spec_parse(mb@) is Some))),
        spec_parse_version(schema_version@) == Some(SCHEMA_VERSION as nat) ==> (r matches Err(e)
            ==> e.error@ == "ParseError"@ && e.exit_code == 2),
        r matches Ok(s) ==> {
            &&& spec_parse_version(schema_version@) == Some(SCHEMA_VERSION as nat)
            &&& s.wf()
            &&& s.gamestate_bytes@ == gamestate_bytes@
            &&& crate::parser::spec_parse(gamestate_bytes@) == Some(s.gamestate.vm())
            &&& match (s.meta, meta_bytes) {
                (Some(m), Some(mb)) => crate::parser::spec_parse(mb@) == Some(m.vm()),
                (None, None) => true,
                _ => false,
            }
        },
{
    match validate_schema_version(schema_version) {
        Err(e) => Err(e),
        Ok(_) => match ParsedSave::load(gamestate_bytes, meta_bytes) {
            Ok(s) => Ok(s),
            Err(fe) => {
                let mut msg = "Failed to parse save text at line ".to_owned();
                let l = dec_u64(fe.line as u64);
                msg.append(l.as_str());
                Err(ErrorResponse::new("ParseError", msg.as_str(), 2))
            },
        },
    }
}

/// Per-name counts of the requested keys.
pub open spec fn spec_counts(gs: Seq<(Seq<char>, ValueModel)>, keys: Seq<String>) -> Seq<
    (Seq<char>, nat),
> {
    Seq::new(keys.len(), |i: int| (keys[i]@, sat(count_sections(gs, keys[i]@, 0))))
}

/// Per-token presence in the raw payload bytes.
pub open spec fn spec_token_matches(bytes: Seq<u8>, tokens: Seq<String>) -> Seq<
    (Seq<char>, bool),
> {
    Seq::new(
        tokens.len(),
        |i: int| (tokens[i]@, contains_sub(bytes, vstd::utf8::encode_utf8(tokens[i]@))),
    )
}

/// Per-pair key/value presence in the parsed tree.
pub open spec fn spec_kv_matches(
    gs: Seq<(Seq<char>, ValueModel)>,
    pairs: Seq<(String, String)>,
) -> Seq<(Seq<char>, bool)> {
    Seq::new(
        pairs.len(),
        |i: int| (
            pairs[i].0@ + seq!['='] + pairs[i].1@,
            kv_sections(gs, pairs[i].0@, pairs[i].1@, 0),
        ),
    )
}

/// What the response to one batchable operation must hold; results never
/// depend on the batch's offset cache.
pub open spec fn op_result_matches(s: ParsedSave, op: MultiOp, r: ResponseData) -> bool {
    match op {
        MultiOp::ExtractSections { sections } => r matches ResponseData::Extract { data }
            && data.vm() == spec_extract_sections(
            gs_entries(s),
            meta_model(s),
            strings_model(sections@),
        ),
        MultiOp::GetEntry { section, key } => r matches ResponseData::SingleEntry { entry, found }
            && entry.vm() == spec_get_entry(gs_entries(s), section@, key@).0 && found
            == spec_get_entry(gs_entries(s), section@, key@).1,
        MultiOp::GetEntries { section, keys, fields } => r matches ResponseData::MultipleEntries {
            entries,
        } && values_model(entries@) == spec_get_entries(
            gs_entries(s),
            section@,
            strings_model(keys@),
            opt_strings(fields),
        ),
        MultiOp::CountKeys { keys } => r matches ResponseData::KeyCounts { counts }
            && counts_model(counts@) == spec_counts(gs_entries(s), keys@),
        MultiOp::ContainsTokens { tokens } => r matches ResponseData::TokenMatches { matches }
            && matches_model(matches@) == spec_token_matches(s.gamestate_bytes@, tokens@),
        MultiOp::ContainsKv { pairs } => r matches ResponseData::KvMatches { matches }
            && matches_model(matches@) == spec_kv_matches(gs_entries(s), pairs@),
        MultiOp::GetCountrySummaries { fields } => r matches ResponseData::CountrySummaries {
            countries,
        } && values_model(countries@) == spec_get_country_summaries(
            gs_entries(s),
            strings_model(fields@),
        ),
        MultiOp::GetDuplicateValues { section, key, field } => r matches
            ResponseData::DuplicateValues { values, found } && {
            let sp = spec_extract_duplicates(
                crate::encoding::spec_decode(s.gamestate_bytes@),
                section@,
                key@,
                field@,
                None,
            );
            strings_model(values@) == sp.0 && found == sp.1
        },
        MultiOp::GetEntryText { section, key } => r matches ResponseData::EntryText {
            text,
            found,
        } && {
            let sp = spec_entry_text(
                crate::encoding::spec_decode(s.gamestate_bytes@),
                section@,
                key@,
                None,
            );
            text@ == sp.0 && found == sp.1
        },
    }
}

/// Answer an extract-sections operation.
pub fn handle_extract_sections(s: &ParsedSave, sections: Vec<String>) -> (r: ResponseData)
    ensures
        op_result_matches(*s, MultiOp::ExtractSections { sections }, r),
{
    let data = s.extract_sections(&sections);
    ResponseData::Extract { data }
}

/// Answer a get-entry operation.
pub fn handle_get_entry(s: &ParsedSave, section: String, key: String) -> (r: ResponseData)
    ensures
        op_result_matches(*s, MultiOp::GetEntry { section, key }, r),
{
    let (entry, found) = s.get_entry(&section, &key);
    ResponseData::SingleEntry { entry, found }
}

/// Answer a get-entries operation.
pub fn handle_get_entries(
    s: &ParsedSave,
    section: String,
    keys: Vec<String>,
    fields: Option<Vec<String>>,
) -> (r: ResponseData)
    ensures
        op_result_matches(*s, MultiOp::GetEntries { section, keys, fields }, r),
{
    let entries = s.get_entries(&section, &keys, &fields);
    ResponseData::MultipleEntries { entries }
}

/// Answer a count-keys operation.
pub fn handle_count_keys(s: &ParsedSave, keys: Vec<String>) -> (r: ResponseData)
    ensures
        op_result_matches(*s, MultiOp::CountKeys { keys }, r),
{
    let counts = s.count_keys(&keys);
    proof {
        assert(counts_model(counts@) =~= spec_counts(gs_entries(*s), keys@));
    }
    ResponseData::KeyCounts { counts }
}

/// Answer a contains-tokens operation.
pub fn handle_contains_tokens(s: &ParsedSave, tokens: Vec<String>) -> (r: ResponseData)
    ensures
        op_result_matches(*s, MultiOp::ContainsTokens { tokens }, r),
{
    let matches = s.contains_tokens(&tokens);
    proof {
        assert(matches_model(matches@) =~= spec_token_matches(s.gamestate_bytes@, tokens@));
    }
    ResponseData::TokenMatches { matches }
}

/// Answer a contains-key-value operation.
pub fn handle_contains_kv(s: &ParsedSave, pairs: Vec<(String, String)>) -> (r: ResponseData)
    ensures
        op_result_matches(*s, MultiOp::ContainsKv { pairs }, r),
{
    let matches = s.contains_kv(&pairs);
    proof {
        assert(matches_model(matches@) =~= spec_kv_matches(gs_entries(*s), pairs@));
    }
    ResponseData::KvMatches { matches }
}

/// Answer a country-summaries operation.
pub fn handle_get_country_summaries(s: &ParsedSave, fields: Vec<String>) -> (r: ResponseData)
    ensures
        op_result_matches(*s, MultiOp::GetCountrySummaries { fields }, r),
{
    let countries = s.get_country_summaries(&fields);
    ResponseData::CountrySummaries { countries }
}

/// A batch-scoped cache entry holds the true content offset of its
/// section.
pub open spec fn cache_wf(cache: Seq<(String, usize)>, hay: Seq<char>) -> bool {
    forall|i: int|
        0 <= i < cache.len() ==> section_content_start(hay, #[trigger] cache[i].0@) == Some(
            cache[i].1 as int,
        )
}

/// Offset cached for a section, if any.
fn cache_lookup(cache: &Vec<(String, usize)>, section: &String) -> (r: Option<usize>)
    ensures
        match r {
            Some(off) => exists|i: int|
                0 <= i < cache@.len() && (#[trigger] cache@[i]).0@ == section@ && cache@[i].1
                    == off,
            None => true,
        },
{
    let mut i: usize = 0;
    while i < cache.len()
        invariant
            0 <= i <= cache@.len(),
        decreases cache@.len() - i,
    {
        if cache[i].0 == *section {
            return Some(cache[i].1);
        }
        i += 1;
    }
    None
}

/// Answer a duplicate-values operation, reusing and extending the batch's
/// section-offset cache; the result is as if no cache were used.
pub fn handle_get_duplicate_values(
    s: &ParsedSave,
    section: String,
    key: String,
    field: String,
    cache: &mut Vec<(String, usize)>,
) -> (r: ResponseData)
    requires
        cache_wf(old(cache)@, crate::encoding::spec_decode(s.gamestate_bytes@)),
    ensures
        op_result_matches(*s, MultiOp::GetDuplicateValues { section, key, field }, r),
        cache_wf(final(cache)@, crate::encoding::spec_decode(s.gamestate_bytes@)),
{
    let ghost hay = crate::encoding::spec_decode(s.gamestate_bytes@);
    let cached = cache_lookup(cache, &section);
    proof {
        match cached {
            Some(off) => {
                assert(section_content_start(hay, section@) == Some(off as int));
            },
            None => {},
        }
    }
    let (values, found, newoff) = s.get_duplicate_values(
        section.as_str(),
        key.as_str(),
        field.as_str(),
        cached,
    );
    proof {
        assert(spec_extract_duplicates(hay, section@, key@, field@, crate::rawtext::opt_model(cached))
            == spec_extract_duplicates(hay, section@, key@, field@, None));
    }
    match newoff {
        Some(off) => {
            let ghost pre = cache@;
            cache.push((section, off));
            proof {
                assert forall|i: int|
                    0 <= i < cache@.len() implies section_content_start(
                    hay,
                    (#[trigger] cache@[i]).0@,
                ) == Some(cache@[i].1 as int) by {
                    if i < pre.len() {
                        assert(cache@[i] == pre[i]);
                    }
                }
            }
        },
        None => {},
    }
    ResponseData::DuplicateValues { values, found }
}

/// Answer an entry-text operation.
pub fn handle_get_entry_text(s: &ParsedSave, section: String, key: String) -> (r: ResponseData)
    ensures
        op_result_matches(*s, MultiOp::GetEntryText { section, key }, r),
{
    let (text, found) = s.get_entry_text(section.as_str(), key.as_str(), None);
    ResponseData::EntryText { text, found }
}

/// Answer a multi-op batch: one result per operation, in request order,
/// whatever the execution strategy; the section-offset cache lives only
/// for this batch.
#[verifier::loop_isolation(false)]
pub fn handle_multi_op(s: &ParsedSave, ops: Vec<MultiOp>) -> (r: ResponseData)
    ensures
        r matches ResponseData::MultiResults { results } && results@.len() == ops@.len()
            && forall|i: int|
            0 <= i < ops@.len() ==> op_result_matches(*s, ops@[i], #[trigger] results@[i]),
{
    let ghost ops0 = ops@;
    let ghost hay = crate::encoding::spec_decode(s.gamestate_bytes@);
    let mut rest = ops;
    let mut results: Vec<ResponseData> = Vec::new();
    let mut cache: Vec<(String, usize)> = Vec::new();
    while rest.len() > 0
        invariant
            results@.len() + rest@.len() == ops0.len(),
            rest@ =~= ops0.subrange(results@.len() as int, ops0.len() as int),
            cache_wf(cache@, hay),
            forall|i: int|
                0 <= i < results@.len() ==> op_result_matches(*s, ops0[i], #[trigger] results@[i]),
        decreases rest@.len(),
    {
        let ghost k = results@.len() as int;
        let op = rest.remove(0);
        proof {
            assert(op == ops0[k]);
            assert(rest@ =~= ops0.subrange(k + 1, ops0.len() as int));
        }
        let res = match op {
            MultiOp::ExtractSections { sections } => handle_extract_sections(s, sections),
            MultiOp::GetEntry { section, key } => handle_get_entry(s, section, key),
            MultiOp::GetEntries { section, keys, fields } => handle_get_entries(
                s,
                section,
                keys,
                fields,
            ),
            MultiOp::CountKeys { keys } => handle_count_keys(s, keys),
            MultiOp::ContainsTokens { tokens } => handle_contains_tokens(s, tokens),
            MultiOp::ContainsKv { pairs } => handle_contains_kv(s, pairs),
            MultiOp::GetCountrySummaries { fields } => handle_get_country_summaries(s, fields),
            MultiOp::GetDuplicateValues { section, key, field } => handle_get_duplicate_values(
                s,
                section,
                key,
                field,
                &mut cache,
            ),
            MultiOp::GetEntryText { section, key } => handle_get_entry_text(s, section, key),
        };
        let ghost res_m = res;
        results.push(res);
        proof {
            assert(op_result_matches(*s, ops0[k], res_m));
            assert forall|i: int|
                0 <= i < results@.len() implies op_result_matches(
                *s,
                ops0[i],
                #[trigger] results@[i],
            ) by {
                if i < k {
                    assert(results@[i] == results@.subrange(0, k)[i]);
                }
            }
        }
    }
    proof {
        assert(results@.len() == ops0.len());
    }
    ResponseData::MultiResults { results }
}

/// Chunks of an entry list, each of the given size except a shorter last
/// one.
pub open spec fn batches_of(
    es: Seq<(Seq<char>, ValueModel)>,
    bs: int,
    i: int,
) -> Seq<Seq<(Seq<char>, ValueModel)>>
    decreases es.len() - i,
{
    if bs < 1 || i < 0 || i >= es.len() {
        Seq::empty()
    } else {
        let j = if i + bs <= es.len() {
            i + bs
        } else {
            es.len() as int
        };
        seq![es.subrange(i, j)] + batches_of(es, bs, j)
    }
}

/// What the streamed messages of an iterate-section operation must hold:
/// a header, then one message per entry (batch size at most one) or one
/// message per chunk, then a done marker.
pub open spec fn iter_msgs_match(
    s: ParsedSave,
    section: Seq<char>,
    batch_size: int,
    r: Seq<ResponseData>,
) -> bool {
    &&& r.len() >= 2
    &&& (r[0] matches ResponseData::StreamHeader { op, section: sec } && op@ == "iter_section"@
        && sec@ == section)
    &&& (r[r.len() - 1] matches ResponseData::StreamDone { op, section: sec } && op@
        == "iter_section"@ && sec@ == section)
    &&& match obj_get(gs_entries(s), section) {
        Some(ValueModel::Obj(es)) => {
            if batch_size <= 1 {
                &&& r.len() == es.len() + 2
                &&& forall|j: int|
                    0 <= j < es.len() ==> ((#[trigger] r[j + 1]) matches
                        ResponseData::StreamEntry {
                        key,
                        value,
                    } && key@ == es[j].0 && value.vm() == es[j].1)
            } else {
                let bl = batches_of(es, batch_size, 0);
                &&& r.len() == bl.len() + 2
                &&& forall|c: int|
                    0 <= c < bl.len() ==> ((#[trigger] r[c + 1]) matches
                        ResponseData::StreamBatch {
                        entries,
                    } && entries_model(entries@) == bl[c])
            }
        },
        _ => r.len() == 2,
    }
}

/// Answer an iterate-section operation with its stream of messages.
#[verifier::loop_isolation(false)]
pub fn handle_iter_section(s: &ParsedSave, section: String, batch_size: usize) -> (r: Vec<
    ResponseData,
>)
    ensures
        iter_msgs_match(*s, section@, batch_size as int, r@),
{
    let mut out: Vec<ResponseData> = Vec::new();
    out.push(
        ResponseData::StreamHeader { op: "iter_section".to_owned(), section: section.clone() },
    );
    let sec = match &s.gamestate {
        Value::Object(o) => {
            proof {
                crate::value::lemma_vm_pairs(o@);
            }
            match crate::value::entries_get(o, &section) {
                Some(v) => match v {
                    Value::Object(inner) => {
                        proof {
                            crate::value::lemma_vm_pairs(inner@);
                        }
                        Some(inner)
                    },
                    _ => None,
                },
                None => None,
            }
        },
        _ => None,
    };
    match sec {
        None => {},
        Some(inner) => {
            let ghost es = entries_model(inner@);
            if batch_size <= 1 {
                let mut j: usize = 0;
                while j < inner.len()
                    invariant
                        0 <= j <= inner@.len(),
                        es == entries_model(inner@),
                        es.len() == inner@.len(),
                        out@.len() == j + 1,
                        r_header_ok(out@, section@),
                        forall|m: int|
                            0 <= m < j ==> ((#[trigger] out@[m + 1]) matches
                                ResponseData::StreamEntry { key, value } && key@ == es[m].0
                                && value.vm() == es[m].1),
                    decreases inner@.len() - j,
                {
                    let ghost out0 = out@;
                    let key = inner[j].0.clone();
                    let value = inner[j].1.duplicate();
                    out.push(ResponseData::StreamEntry { key, value });
                    proof {
                        assert forall|m: int|
                            0 <= m < j + 1 implies (#[trigger] out@[m + 1]) matches
                                ResponseData::StreamEntry { key, value } && key@ == es[m].0
                                && value.vm() == es[m].1 by {
                            if m < j {
                                assert(out@[m + 1] == out0[m + 1]);
                            }
                        }
                    }
                    j += 1;
                }
            } else {
                let ghost bl = batches_of(es, batch_size as int, 0);
                let mut i: usize = 0;
                let ghost c: int = 0;
                while i < inner.len()
                    invariant
                        0 <= i <= inner@.len(),
                        es == entries_model(inner@),
                        es.len() == inner@.len(),
                        batch_size >= 2,
                        out@.len() == c + 1,
                        0 <= c,
                        r_header_ok(out@, section@),
                        bl == batches_of(es, batch_size as int, 0),
                        c + batches_of(es, batch_size as int, i as int).len() == bl.len(),
                        bl =~= bl.subrange(0, c) + batches_of(es, batch_size as int, i as int),
                        forall|m: int|
                            0 <= m < c ==> ((#[trigger] out@[m + 1]) matches
                                ResponseData::StreamBatch { entries } && entries_model(entries@)
                                == bl[m]),
                        i < es.len() ==> batches_of(es, batch_size as int, i as int).len() > 0,
                    decreases inner@.len() - i,
                {
                    let ghost out0 = out@;
                    let j_end: usize = if batch_size <= inner.len() - i {
                        i + batch_size
                    } else {
                        inner.len()
                    };
                    let mut chunk: Vec<(String, Value)> = Vec::new();
                    let mut t: usize = i;
                    while t < j_end
                        invariant
                            i <= t <= j_end <= inner@.len(),
                            es == entries_model(inner@),
                            es.len() == inner@.len(),
                            chunk@.len() == t - i,
                            entries_model(chunk@) =~= es.subrange(i as int, t as int),
                        decreases j_end - t,
                    {
                        let key = inner[t].0.clone();
                        let value = inner[t].1.duplicate();
                        let ghost chunk0 = chunk@;
                        chunk.push((key, value));
                        proof {
                            assert(entries_model(chunk@) =~= es.subrange(i as int, t + 1 as int));
                        }
                        t += 1;
                    }
                    proof {
                        assert(batches_of(es, batch_size as int, i as int) == seq![es.subrange(
                            i as int,
                            j_end as int,
                        )] + batches_of(es, batch_size as int, j_end as int));
                        assert(bl[c] == es.subrange(i as int, j_end as int));
                    }
                    out.push(ResponseData::StreamBatch { entries: chunk });
                    proof {
                        assert forall|m: int|
                            0 <= m < c + 1 implies (#[trigger] out@[m + 1]) matches
                                ResponseData::StreamBatch { entries } && entries_model(entries@)
                                == bl[m] by {
                            if m < c {
                                assert(out@[m + 1] == out0[m + 1]);
                            }
                        }
                        assert(bl =~= bl.subrange(0, c + 1) + batches_of(
                            es,
                            batch_size as int,
                            j_end as int,
                        )) by {
                            assert(bl.subrange(0, c + 1) =~= bl.subrange(0, c).push(bl[c]));
                        }
                    }
                    i = j_end;
                    proof {
                        c = c + 1;
                    }
                }
                proof {
                    assert(batches_of(es, batch_size as int, i as int) =~= Seq::<
                        Seq<(Seq<char>, ValueModel)>,
                    >::empty());
                    assert(bl =~= bl.subrange(0, c));
                    assert(bl.len() == c);
                }
            }
        },
    }
    out.push(
        ResponseData::StreamDone { op: "iter_section".to_owned(), section: section },
    );
    out
}

/// What the messages answering one request must hold: exactly one message
/// for every plain operation, the full stream for the iterate operation,
/// the closed acknowledgment (ending the session) for a close request.
pub open spec fn request_msgs_match(
    s: ParsedSave,
    req: Request,
    r: Seq<ResponseData>,
    go_on: bool,
) -> bool {
    match req {
        Request::ExtractSections { sections } => go_on && r.len() == 1 && op_result_matches(
            s,
            MultiOp::ExtractSections { sections },
            r[0],
        ),
        Request::IterSection { section, batch_size } => go_on && iter_msgs_match(
            s,
            section@,
            batch_size as int,
            r,
        ),
        Request::GetEntry { section, key } => go_on && r.len() == 1 && op_result_matches(
            s,
            MultiOp::GetEntry { section, key },
            r[0],
        ),
        Request::GetEntries { section, keys, fields } => go_on && r.len() == 1
            && op_result_matches(s, MultiOp::GetEntries { section, keys, fields }, r[0]),
        Request::CountKeys { keys } => go_on && r.len() == 1 && op_result_matches(
            s,
            MultiOp::CountKeys { keys },
            r[0],
        ),
        Request::ContainsTokens { tokens } => go_on && r.len() == 1 && op_result_matches(
            s,
            MultiOp::ContainsTokens { tokens },
            r[0],
        ),
        Request::ContainsKv { pairs } => go_on && r.len() == 1 && op_result_matches(
            s,
            MultiOp::ContainsKv { pairs },
            r[0],
        ),
        Request::GetCountrySummaries { fields } => go_on && r.len() == 1 && op_result_matches(
            s,
            MultiOp::GetCountrySummaries { fields },
            r[0],
        ),
        Request::GetDuplicateValues { section, key, field } => go_on && r.len() == 1
            && op_result_matches(s, MultiOp::GetDuplicateValues { section, key, field }, r[0]),
        Request::GetEntryText { section, key } => go_on && r.len() == 1 && op_result_matches(
            s,
            MultiOp::GetEntryText { section, key },
            r[0],
        ),
        Request::Multi { ops } => go_on && r.len() == 1 && (r[0] matches
            ResponseData::MultiResults { results } && results@.len() == ops@.len() && forall|i: int|
            0 <= i < ops@.len() ==> op_result_matches(s, ops@[i], #[trigger] results@[i])),
        Request::Close => !go_on && r.len() == 1 && r[0] is Closed,
    }
}

/// Execute one request to completion: the messages to write, in order,
/// and whether the session goes on. A close request acknowledges and ends
/// the session; every other request leaves it ready for the next one.
pub fn handle_request(s: &ParsedSave, req: Request) -> (r: (Vec<ResponseData>, bool))
    ensures
        request_msgs_match(*s, req, r.0@, r.1),
{
    match req {
        Request::ExtractSections { sections } => {
            let mut v: Vec<ResponseData> = Vec::new();
            v.push(handle_extract_sections(s, sections));
            (v, true)
        },
        Request::IterSection { section, batch_size } => {
            (handle_iter_section(s, section, batch_size), true)
        },
        Request::GetEntry { section, key } => {
            let mut v: Vec<ResponseData> = Vec::new();
            v.push(handle_get_entry(s, section, key));
            (v, true)
        },
        Request::GetEntries { section, keys, fields } => {
            let mut v: Vec<ResponseData> = Vec::new();
            v.push(handle_get_entries(s, section, keys, fields));
            (v, true)
        },
        Request::CountKeys { keys } => {
            let mut v: Vec<ResponseData> = Vec::new();
            v.push(handle_count_keys(s, keys));
            (v, true)
        },
        Request::ContainsTokens { tokens } => {
            let mut v: Vec<ResponseData> = Vec::new();
            v.push(handle_contains_tokens(s, tokens));
            (v, true)
        },
        Request::ContainsKv { pairs } => {
            let mut v: Vec<ResponseData> = Vec::new();
            v.push(handle_contains_kv(s, pairs));
            (v, true)
        },
        Request::GetCountrySummaries { fields } => {
            let mut v: Vec<ResponseData> = Vec::new();
            v.push(handle_get_country_summaries(s, fields));
            (v, true)
        },
        Request::GetDuplicateValues { section, key, field } => {
            let mut cache: Vec<(String, usize)> = Vec::new();
            let mut v: Vec<ResponseData> = Vec::new();
            v.push(handle_get_duplicate_values(s, section, key, field, &mut cache));
            (v, true)
        },
        Request::GetEntryText { section, key } => {
            let mut v: Vec<ResponseData> = Vec::new();
            v.push(handle_get_entry_text(s, section, key));
            (v, true)
        },
        Request::Multi { ops } => {
            let mut v: Vec<ResponseData> = Vec::new();
            v.push(handle_multi_op(s, ops));
            (v, true)
        },
        Request::Close => {
            let mut v: Vec<ResponseData> = Vec::new();
            v.push(ResponseData::Closed);
            (v, false)
        },
    }
}

/// One line of the one-shot streaming extraction: the first line carries
/// the section name alongside its key and value, later lines only the key
/// and value.
pub enum IterLine {
    First { section: String, key: String, value: Value },
    Rest { key: String, value: Value },
}

/// One line per entry of the requested section's top-level mapping, in
/// order, the first line marked; empty when the section is absent or not
/// an object.
#[verifier::loop_isolation(false)]
pub fn iter_section_lines(s: &ParsedSave, section: &String) -> (r: Vec<IterLine>)
    ensures
        match obj_get(gs_entries(*s), section@) {
            Some(ValueModel::Obj(es)) => {
                &&& r@.len() == es.len()
                &&& forall|j: int|
                    0 <= j < es.len() ==> (if j == 0 {
                        (#[trigger] r@[j]) matches IterLine::First { section: sec, key, value }
                            && sec@ == section@ && key@ == es[j].0 && value.vm() == es[j].1
                    } else {
                        r@[j] matches IterLine::Rest { key, value } && key@ == es[j].0
                            && value.vm() == es[j].1
                    })
            },
            _ => r@.len() == 0,
        },
{
    let mut out: Vec<IterLine> = Vec::new();
    let sec = match &s.gamestate {
        Value::Object(o) => {
            proof {
                crate::value::lemma_vm_pairs(o@);
            }
            match crate::value::entries_get(o, section) {
                Some(v) => match v {
                    Value::Object(inner) => {
                        proof {
                            crate::value::lemma_vm_pairs(inner@);
                        }
                        Some(inner)
                    },
                    _ => None,
                },
                None => None,
            }
        },
        _ => None,
    };
    match sec {
        None => out,
        Some(inner) => {
            let ghost es = entries_model(inner@);
            let mut j: usize = 0;
            while j < inner.len()
                invariant
                    0 <= j <= inner@.len(),
                    es == entries_model(inner@),
                    es.len() == inner@.len(),
                    out@.len() == j,
                    forall|m: int|
                        0 <= m < j ==> (if m == 0 {
                            (#[trigger] out@[m]) matches IterLine::First {
                                section: sec,
                                key,
                                value,
                            } && sec@ == section@ && key@ == es[m].0 && value.vm() == es[m].1
                        } else {
                            out@[m] matches IterLine::Rest { key, value } && key@ == es[m].0
                                && value.vm() == es[m].1
                        }),
                decreases inner@.len() - j,
            {
                let ghost out0 = out@;
                let key = inner[j].0.clone();
                let value = inner[j].1.duplicate();
                if j == 0 {
                    out.push(IterLine::First { section: section.clone(), key, value });
                } else {
                    out.push(IterLine::Rest { key, value });
                }
                proof {
                    assert forall|m: int|
                        0 <= m < j + 1 implies (if m == 0 {
                        (#[trigger] out@[m]) matches IterLine::First { section: sec, key, value }
                            && sec@ == section@ && key@ == es[m].0 && value.vm() == es[m].1
                    } else {
                        out@[m] matches IterLine::Rest { key, value } && key@ == es[m].0
                            && value.vm() == es[m].1
                    }) by {
                        if m < j {
                            assert(out@[m] == out0[m]);
                        }
                    }
                }
                j += 1;
            }
            out
        },
    }
}

/// The first message is the stream header for this operation and section.
pub open spec fn r_header_ok(r: Seq<ResponseData>, section: Seq<char>) -> bool {
    r.len() >= 1 && (r[0] matches ResponseData::StreamHeader { op, section: sec } && op@
        == "iter_section"@ && sec@ == section)
}

} // verus!
