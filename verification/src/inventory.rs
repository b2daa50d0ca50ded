//! Loaded MCP servers, skills, and total tokens for this session, read
//! from the session transcript.
//!
//! Why "loaded" and not "used": every connected MCP server and every
//! available skill injects definitions into the context on every turn, so
//! the count is a context-weight and capability inventory.
//!
//! Token totals: each assistant record carries `message.usage` with the
//! token counts of one response (fresh input, cache writes, cache reads,
//! output; an absent counter counts as zero). One response writes several
//! consecutive records with the same `message.id` and identical usage, so
//! the first record for an id counts and repeats are skipped; a record
//! without an id is not counted. The sum renders only once the scan has
//! reached the end of the transcript (`caught_up`) and no relevant record
//! was dropped (`lossy`).
//!
//! Sources (attachment records in the transcript JSONL):
//! - `skill_listing` with `isInitial: true`: `skillCount` is the loaded
//!   skill count; later full listings override earlier ones.
//! - `deferred_tools_delta`: `addedNames`/`readdedNames`/`removedNames`
//!   applied in order; `mcp__<server>__<tool>` names yield the loaded server
//!   set; `pendingMcpServers` names servers awaiting schemas.
//! - `mcp_instructions_delta`: servers whose instructions are injected.
//!
//! Cost model: the caller stores the processed byte offset; one pass reads
//! at most a fixed budget from there ([`Inventory::begin_pass`] and
//! [`Inventory::apply_pass`] decide what the bytes mean), truncation resets
//! the state, and a partial trailing line is never consumed.

use vstd::prelude::*;
use crate::json::{
    json_contents, json_from_str, model_as_array, model_as_bool, model_as_str, model_as_u64,
    model_get, opt_get, parse_value, value_as_array, value_as_bool, value_as_str, value_as_u64,
    value_get, JsonModel,
};
use crate::text::{
    chars_of, find_chars, find_str, has_prefix, lines_of, lossy_utf8, split_lines, starts_with,
    str_eq, string_from_chars, utf8_lossy,
};

verus! {

/// The transcript scan state. The caller persists it between renders.
#[derive(Debug, Clone, PartialEq)]
pub struct Inventory {
    /// Bytes of the transcript already processed.
    pub offset: u64,
    /// Inside a line longer than one pass budget: discard bytes until the
    /// next newline before parsing resumes.
    pub skipping: bool,
    /// The scan reached the end of the transcript on the last pass. Token
    /// totals render only when true.
    pub caught_up: bool,
    /// A discarded oversized line looked relevant: the token total is a
    /// lower bound, not a total, and must not render.
    pub lossy: bool,
    /// Latest full-listing skill count. `None` until a listing is seen.
    pub skill_count: Option<u64>,
    /// Live deferred `mcp__*` tool names (adds minus removes), as a set.
    pub mcp_tools: Vec<String>,
    /// Server names from instruction deltas and pending-schema lists, as a set.
    pub mcp_servers: Vec<String>,
    /// Session-total tokens, summed over distinct assistant message ids.
    pub total_tokens: u64,
    /// The assistant message ids already counted, as a set.
    pub counted_ids: Vec<String>,
}

/// The texts of a sequence of strings.
pub open spec fn texts(v: Seq<String>) -> Seq<Seq<char>> {
    v.map_values(|s: String| s@)
}

/// The set of texts held by a vector of strings.
pub open spec fn string_set(v: Seq<String>) -> Set<Seq<char>> {
    texts(v).to_set()
}

/// The abstract scan state.
pub struct InventoryView {
    pub offset: u64,
    pub skipping: bool,
    pub caught_up: bool,
    pub lossy: bool,
    pub skill_count: Option<u64>,
    pub mcp_tools: Set<Seq<char>>,
    pub mcp_servers: Set<Seq<char>>,
    pub total_tokens: u64,
    pub counted_ids: Set<Seq<char>>,
}

impl View for Inventory {
    type V = InventoryView;

    open spec fn view(&self) -> InventoryView {
        InventoryView {
            offset: self.offset,
            skipping: self.skipping,
            caught_up: self.caught_up,
            lossy: self.lossy,
            skill_count: self.skill_count,
            mcp_tools: string_set(self.mcp_tools@),
            mcp_servers: string_set(self.mcp_servers@),
            total_tokens: self.total_tokens,
            counted_ids: string_set(self.counted_ids@),
        }
    }
}

/// The state before anything was scanned.
pub open spec fn empty_inventory() -> InventoryView {
    InventoryView {
        offset: 0,
        skipping: false,
        caught_up: false,
        lossy: false,
        skill_count: None,
        mcp_tools: Set::empty(),
        mcp_servers: Set::empty(),
        total_tokens: 0,
        counted_ids: Set::empty(),
    }
}

impl Default for Inventory {
    fn default() -> (r: Self)
        ensures
            r@ == empty_inventory(),
    {
        let r = Inventory {
            offset: 0,
            skipping: false,
            caught_up: false,
            lossy: false,
            skill_count: None,
            mcp_tools: Vec::new(),
            mcp_servers: Vec::new(),
            total_tokens: 0,
            counted_ids: Vec::new(),
        };
        assert(string_set(r.mcp_tools@) =~= Set::empty());
        assert(string_set(r.counted_ids@) =~= Set::empty());
        assert(string_set(r.mcp_servers@) =~= Set::empty());
        r
    }
}

// ---------------------------------------------------------------------
// String sets held in vectors
// ---------------------------------------------------------------------

proof fn lemma_push_to_set(xs: Seq<Seq<char>>, a: Seq<char>)
    ensures
        xs.push(a).to_set() == xs.to_set().insert(a),
{
    assert(xs.push(a) =~= xs + seq![a]);
    Seq::lemma_to_set_insert_commutes(xs, a);
}

proof fn lemma_string_set_push(v: Seq<String>, x: Seq<char>)
    ensures
        (texts(v) + seq![x]).to_set() == texts(v).to_set().insert(x),
{
    Seq::lemma_to_set_insert_commutes(texts(v), x);
}

/// Whether `v` holds the text `x`.
fn set_contains(v: &Vec<String>, x: &str) -> (r: bool)
    ensures
        r == string_set(v@).contains(x@),
{
    let xs = string_from_chars(chars_of(x).as_slice());
    let mut i: usize = 0;
    while i < v.len()
        invariant
            xs@ == x@,
            i <= v@.len(),
            forall|j: int| 0 <= j < i ==> v@[j]@ != x@,
        decreases v@.len() - i,
    {
        if v[i] == xs {
            assert(texts(v@)[i as int] == x@);
            return true;
        }
        i = i + 1;
    }
    assert(!string_set(v@).contains(x@)) by {
        if texts(v@).contains(x@) {
            let k = choose|k: int|
                0 <= k < v@.len() && #[trigger] texts(v@)[k] == x@;
            assert(v@[k]@ == x@);
        }
    }
    false
}

/// Adds the text `x` to the set `v`.
fn set_insert(v: &mut Vec<String>, x: &str)
    ensures
        string_set(final(v)@) == string_set(old(v)@).insert(x@),
{
    if !set_contains(v, x) {
        let ghost before = v@;
        v.push(string_from_chars(chars_of(x).as_slice()));
        proof {
            assert(texts(v@) =~= texts(before) + seq![
                x@,
            ]);
            lemma_string_set_push(before, x@);
        }
    } else {
        assert(string_set(v@).insert(x@) =~= string_set(v@));
    }
}

/// Removes the text `x` from the set `v`.
fn set_remove(v: &mut Vec<String>, x: &str)
    ensures
        string_set(final(v)@) == string_set(old(v)@).remove(x@),
{
    let mut kept: Vec<String> = Vec::new();
    let ghost before = v@;
    let xs = string_from_chars(chars_of(x).as_slice());
    let mut i: usize = 0;
    while i < v.len()
        invariant
            xs@ == x@,
            v@ == before,
            i <= v@.len(),
            string_set(kept@) == string_set(before.take(i as int)).remove(x@),
        decreases v@.len() - i,
    {
        let ghost prev = kept@;
        proof {
            assert(before.take(i + 1) =~= before.take(i as int) + seq![before[i as int]]);
            assert(texts(before.take(i + 1)) =~= texts(before.take(
                i as int,
            )) + seq![before[i as int]@]);
            lemma_string_set_push(before.take(i as int), before[i as int]@,
            );
        }
        if v[i] != xs {
            kept.push(v[i].clone());
            proof {
                assert(texts(kept@) =~= texts(prev)
                    + seq![before[i as int]@]);
                lemma_string_set_push(prev, before[i as int]@);
                assert(string_set(kept@) =~= string_set(before.take(i + 1)).remove(x@));
            }
        } else {
            assert(string_set(kept@) =~= string_set(before.take(i + 1)).remove(x@));
        }
        i = i + 1;
    }
    assert(before.take(before.len() as int) =~= before);
    *v = kept;
}

// ---------------------------------------------------------------------
// MCP servers
// ---------------------------------------------------------------------

/// `mcp__in-chrome__navigate` names the server `in-chrome`:
/// what follows `mcp__` up to the next `__`, when that is not empty.
pub open spec fn mcp_server_name_spec(tool: Seq<char>) -> Option<Seq<char>> {
    if starts_with(tool, "mcp__"@) {
        let rest = tool.skip("mcp__"@.len() as int);
        let server = match find_str(rest, "__"@) {
            Some(i) => rest.take(i),
            None => rest,
        };
        if server.len() > 0 {
            Some(server)
        } else {
            None
        }
    } else {
        None
    }
}

/// The MCP server a deferred tool name belongs to.
pub fn mcp_server_name(tool: &str) -> (r: Option<String>)
    ensures
        match mcp_server_name_spec(tool@) {
            Some(s) => r matches Some(v) && v@ == s,
            None => r is None,
        },
{
    let t = chars_of(tool);
    let p = chars_of("mcp__");
    if !crate::text::has_prefix(t.as_slice(), p.as_slice()) {
        return None;
    }
    let (_, rest) = t.as_slice().split_at(p.len());
    assert(rest@ =~= tool@.skip("mcp__"@.len() as int));
    let sep = chars_of("__");
    let end = match find_chars(rest, sep.as_slice()) {
        Some(i) => i,
        None => rest.len(),
    };
    if end == 0 {
        return None;
    }
    let (server, _) = rest.split_at(end);
    assert(server@ =~= rest@.take(end as int));
    Some(string_from_chars(server))
}

/// The servers that the live tools belong to.
pub open spec fn tool_servers(tools: Set<Seq<char>>) -> Set<Seq<char>> {
    Set::new(
        |srv: Seq<char>|
            exists|t: Seq<char>| tools.contains(t) && mcp_server_name_spec(t) == Some(srv),
    )
}

/// Every loaded server: those of live tools and those named directly.
pub open spec fn loaded_servers(v: InventoryView) -> Set<Seq<char>> {
    tool_servers(v.mcp_tools).union(v.mcp_servers)
}

impl Inventory {
    /// The number of distinct loaded MCP servers.
    pub fn mcp_count(&self) -> (r: u64)
        ensures
            loaded_servers(self@).finite(),
            r == loaded_servers(self@).len(),
    {
        let mut names: Vec<String> = Vec::new();
        let ghost tools = self.mcp_tools@;
        let mut i: usize = 0;
        while i < self.mcp_tools.len()
            invariant
                tools == self.mcp_tools@,
                i <= tools.len(),
                texts(names@).no_duplicates(),
                string_set(names@) == tool_servers(string_set(tools.take(i as int))),
            decreases tools.len() - i,
        {
            proof {
                assert(texts(tools.take(i + 1)) =~= texts(tools.take(
                    i as int,
                )) + seq![tools[i as int]@]);
                lemma_string_set_push(tools.take(i as int), tools[i as int]@,
                );
            }
            let ghost prev = names@;
            match mcp_server_name(self.mcp_tools[i].as_str()) {
                Some(srv) => {
                    if !set_contains(&names, srv.as_str()) {
                        names.push(srv);
                        proof {
                            assert(texts(names@) =~= texts(prev) + seq![names@[names@.len() - 1]@]);
                            lemma_string_set_push(prev, names@[names@.len() - 1]@,
                            );
                        }
                    }
                    assert(string_set(names@) =~= tool_servers(
                        string_set(tools.take(i + 1)),
                    ));
                },
                None => {
                    assert(string_set(names@) =~= tool_servers(
                        string_set(tools.take(i + 1)),
                    ));
                },
            }
            i = i + 1;
        }
        assert(tools.take(tools.len() as int) =~= tools);
        let ghost servers = self.mcp_servers@;
        let mut k: usize = 0;
        while k < self.mcp_servers.len()
            invariant
                tools == self.mcp_tools@,
                servers == self.mcp_servers@,
                k <= servers.len(),
                texts(names@).no_duplicates(),
                string_set(names@) == tool_servers(string_set(tools)).union(
                    string_set(servers.take(k as int)),
                ),
            decreases servers.len() - k,
        {
            proof {
                assert(texts(servers.take(k + 1)) =~= texts(servers.take(
                    k as int,
                )) + seq![servers[k as int]@]);
                lemma_string_set_push(servers.take(k as int), servers[k as int]@,
                );
            }
            let ghost prev = names@;
            let s = self.mcp_servers[k].as_str();
            if !set_contains(&names, s) {
                names.push(string_from_chars(chars_of(s).as_slice()));
                proof {
                    assert(texts(names@) =~= texts(prev)
                        + seq![servers[k as int]@]);
                    lemma_string_set_push(prev, servers[k as int]@,
                    );
                }
            }
            assert(string_set(names@) =~= tool_servers(string_set(tools)).union(
                string_set(servers.take(k + 1)),
            ));
            k = k + 1;
        }
        assert(servers.take(servers.len() as int) =~= servers);
        proof {
            texts(names@).unique_seq_to_set();
        }
        names.len() as u64
    }

    /// No MCP server, no skill listing and no tokens: nothing to show.
    pub fn is_empty(&self) -> (r: bool)
        ensures
            r == (loaded_servers(self@).len() == 0 && self.skill_count is None
                && self.total_tokens == 0),
    {
        self.mcp_count() == 0 && self.skill_count.is_none() && self.total_tokens == 0
    }
}

// ---------------------------------------------------------------------
// Cheap prefilter on raw bytes
// ---------------------------------------------------------------------

/// The record keys that classify a line sit near its start; tool output
/// quoted inside `content` sits later and arrives with escaped quotes, so
/// it cannot spoof these tokens.
pub const HEAD_BYTES: usize = 512;

/// One pass over the transcript reads at most this many bytes, so a large
/// backlog does not block a render; the scan catches up across renders.
pub const MAX_SCAN_BYTES: usize = 4194304;

/// The first [`HEAD_BYTES`] bytes of `b`.
pub open spec fn head_spec(b: Seq<u8>) -> Seq<u8> {
    if b.len() <= HEAD_BYTES {
        b
    } else {
        b.take(HEAD_BYTES as int)
    }
}

/// `needle` occurs in `hay` at `i`.
pub open spec fn bytes_at(hay: Seq<u8>, needle: Seq<u8>, i: int) -> bool {
    0 <= i && i + needle.len() <= hay.len() && hay.subrange(i, i + needle.len()) == needle
}

/// `needle` occurs somewhere in `hay`.
pub open spec fn contains_bytes(hay: Seq<u8>, needle: Seq<u8>) -> bool {
    exists|i: int| bytes_at(hay, needle, i)
}

/// The first [`HEAD_BYTES`] bytes of `bytes`.
pub fn head_of(bytes: &[u8]) -> (r: &[u8])
    ensures
        r@ == head_spec(bytes@),
{
    if bytes.len() <= HEAD_BYTES {
        bytes
    } else {
        let (h, _) = bytes.split_at(HEAD_BYTES);
        assert(h@ =~= bytes@.take(HEAD_BYTES as int));
        h
    }
}

/// Whether `needle` occurs in `hay`, as a window of `hay.windows(n)` for
/// the needle's length `n`; `windows(0)` panics, so the needle is not empty.
pub fn contains_seq(hay: &[u8], needle: &[u8]) -> (r: bool)
    requires
        needle@.len() > 0,
    ensures
        r == contains_bytes(hay@, needle@),
{
    if needle.len() > hay.len() {
        return false;
    }
    let last = hay.len() - needle.len();
    let mut i: usize = 0;
    loop
        invariant
            last == hay@.len() - needle@.len(),
            i <= last,
            forall|j: int| 0 <= j < i ==> !bytes_at(hay@, needle@, j),
        ensures
            forall|j: int| 0 <= j <= last ==> !bytes_at(hay@, needle@, j),
        decreases last - i,
    {
        let mut k: usize = 0;
        let mut same = true;
        while k < needle.len()
            invariant
                i <= last,
                last == hay@.len() - needle@.len(),
                hay@.len() == hay.len(),
                needle@.len() == needle.len(),
                k <= needle@.len(),
                same == forall|j: int| 0 <= j < k ==> hay@[i + j] == needle@[j],
            decreases needle@.len() - k,
        {
            if hay[i + k] != needle[k] {
                same = false;
            }
            k = k + 1;
        }
        if same {
            assert(hay@.subrange(i as int, i + needle@.len()) =~= needle@);
            assert(bytes_at(hay@, needle@, i as int));
            return true;
        }
        assert(!bytes_at(hay@, needle@, i as int)) by {
            if bytes_at(hay@, needle@, i as int) {
                let j = choose|j: int| 0 <= j < needle@.len() && hay@[i + j] != needle@[j];
                assert(hay@.subrange(i as int, i + needle@.len())[j] == hay@[i + j]);
            }
        }
        if i == last {
            break;
        }
        i = i + 1;
    }
    assert forall|j: int| !bytes_at(hay@, needle@, j) by {
        if 0 <= j <= last {
        }
    }
    false
}

/// Whether `needle` occurs within the head of `line`'s UTF-8 bytes.
pub fn head_contains(line: &str, needle: &[u8]) -> (r: bool)
    requires
        needle@.len() > 0,
    ensures
        r == contains_bytes(head_spec(vstd::utf8::encode_utf8(line@)), needle@),
{
    contains_seq(head_of(line.as_bytes()), needle)
}

/// The UTF-8 bytes of a text.
pub open spec fn utf8(s: Seq<char>) -> Seq<u8> {
    vstd::utf8::encode_utf8(s)
}

proof fn lemma_utf8_nonempty(s: Seq<char>)
    requires
        s.len() > 0,
    ensures
        utf8(s).len() > 0,
{
    assert(vstd::utf8::encode_scalar(s[0] as u32).len() > 0);
}

/// The cheap prefilter: an assistant record mentioning `"usage"`, or an
/// attachment record of one of the three inventory kinds. It only saves
/// parses; the full parse still validates the record shape.
pub open spec fn interesting_spec(b: Seq<u8>) -> bool {
    ||| contains_bytes(head_spec(b), utf8("\"role\":\"assistant\""@)) && contains_bytes(
        b,
        utf8("\"usage\""@),
    )
    ||| contains_bytes(head_spec(b), utf8("\"attachment\":"@)) && (contains_bytes(
        b,
        utf8("skill_listing"@),
    ) || contains_bytes(b, utf8("deferred_tools_delta"@)) || contains_bytes(
        b,
        utf8("mcp_instructions_delta"@),
    ))
}

/// The cheap prefilter on a transcript line. Most lines carry neither
/// inventory records nor usage; multi-megabyte tool-output records fail
/// the head test and are never parsed.
pub fn interesting(line: &str) -> (r: bool)
    ensures
        r == interesting_spec(utf8(line@)),
{
    let b = line.as_bytes();
    let role = "\"role\":\"assistant\"".as_bytes();
    let usage = "\"usage\"".as_bytes();
    let att = "\"attachment\":".as_bytes();
    let sl = "skill_listing".as_bytes();
    let dt = "deferred_tools_delta".as_bytes();
    let mi = "mcp_instructions_delta".as_bytes();
    proof {
        reveal_strlit("\"role\":\"assistant\"");
        reveal_strlit("\"usage\"");
        reveal_strlit("\"attachment\":");
        reveal_strlit("skill_listing");
        reveal_strlit("deferred_tools_delta");
        reveal_strlit("mcp_instructions_delta");
        lemma_utf8_nonempty("\"role\":\"assistant\""@);
        lemma_utf8_nonempty("\"usage\""@);
        lemma_utf8_nonempty("\"attachment\":"@);
        lemma_utf8_nonempty("skill_listing"@);
        lemma_utf8_nonempty("deferred_tools_delta"@);
        lemma_utf8_nonempty("mcp_instructions_delta"@);
    }
    (head_contains(line, role) && contains_seq(b, usage)) || (head_contains(line, att) && (
    contains_seq(b, sl) || contains_seq(b, dt) || contains_seq(b, mi)))
}

// ---------------------------------------------------------------------
// Records
// ---------------------------------------------------------------------

/// `x.and_then(|x| x.as_str())`.
pub open spec fn opt_str(o: Option<JsonModel>) -> Option<Seq<char>> {
    match o {
        Some(m) => model_as_str(m),
        None => None,
    }
}

/// `x.and_then(|x| x.as_u64())`.
pub open spec fn opt_u64(o: Option<JsonModel>) -> Option<u64> {
    match o {
        Some(m) => model_as_u64(m),
        None => None,
    }
}

/// `x.and_then(|x| x.as_bool())`.
pub open spec fn opt_bool(o: Option<JsonModel>) -> Option<bool> {
    match o {
        Some(m) => model_as_bool(m),
        None => None,
    }
}

/// Adds a counter that may be absent (an absent counter adds nothing),
/// saturating at `u64::MAX`.
pub open spec fn add_counter(acc: u64, c: Option<u64>) -> u64 {
    match c {
        Some(n) => acc.saturating_add(n),
        None => acc,
    }
}

/// Fresh input + cache writes + cache reads + output of one usage record,
/// saturating.
pub open spec fn usage_sum(usage: JsonModel) -> u64 {
    add_counter(
        add_counter(
            add_counter(
                add_counter(0, opt_u64(model_get(usage, "input_tokens"@))),
                opt_u64(model_get(usage, "cache_creation_input_tokens"@)),
            ),
            opt_u64(model_get(usage, "cache_read_input_tokens"@)),
        ),
        opt_u64(model_get(usage, "output_tokens"@)),
    )
}

/// One usage record: the first record for an id counts; a record whose id
/// was already counted, or a record without a (non-empty) id, changes
/// nothing. The total is a sum over distinct message ids.
pub open spec fn apply_usage_spec(
    id: Option<Seq<char>>,
    usage: JsonModel,
    s: InventoryView,
) -> InventoryView {
    match id {
        Some(i) => if i.len() == 0 || s.counted_ids.contains(i) {
            s
        } else {
            InventoryView {
                total_tokens: s.total_tokens.saturating_add(usage_sum(usage)),
                counted_ids: s.counted_ids.insert(i),
                ..s
            }
        },
        None => s,
    }
}

/// The string elements of the array `att[key]` (none when it is absent or
/// not an array), in order.
pub open spec fn str_items_spec(att: JsonModel, key: Seq<char>) -> Seq<Seq<char>> {
    match model_get(att, key) {
        Some(x) => match model_as_array(x) {
            Some(items) => items.filter_map(|m: JsonModel| model_as_str(m)),
            None => Seq::empty(),
        },
        None => Seq::empty(),
    }
}

/// The deferred tool names among `names` that belong to MCP servers.
pub open spec fn mcp_tool_names(names: Seq<Seq<char>>) -> Set<Seq<char>> {
    Set::new(|n: Seq<char>| names.contains(n) && starts_with(n, "mcp__"@))
}

/// Everything but the two name sets agrees.
pub open spec fn same_scalars(a: InventoryView, b: InventoryView) -> bool {
    &&& a.offset == b.offset
    &&& a.skipping == b.skipping
    &&& a.caught_up == b.caught_up
    &&& a.lossy == b.lossy
    &&& a.skill_count == b.skill_count
    &&& a.total_tokens == b.total_tokens
    &&& a.counted_ids == b.counted_ids
}

/// One attachment record.
pub open spec fn apply_attachment(att: JsonModel, s: InventoryView) -> InventoryView {
    let kind = opt_str(model_get(att, "type"@));
    if kind == Some("skill_listing"@) {
        // Only full listings carry the whole inventory.
        if opt_bool(model_get(att, "isInitial"@)) == Some(true) && opt_u64(
            model_get(att, "skillCount"@),
        ) is Some {
            InventoryView { skill_count: opt_u64(model_get(att, "skillCount"@)), ..s }
        } else {
            s
        }
    } else if kind == Some("deferred_tools_delta"@) {
        InventoryView {
            mcp_tools: s.mcp_tools.union(
                mcp_tool_names(
                    str_items_spec(att, "addedNames"@) + str_items_spec(att, "readdedNames"@),
                ),
            ).difference(str_items_spec(att, "removedNames"@).to_set()),
            mcp_servers: s.mcp_servers.union(str_items_spec(att, "pendingMcpServers"@).to_set()),
            ..s
        }
    } else if kind == Some("mcp_instructions_delta"@) {
        InventoryView {
            mcp_servers: s.mcp_servers.union(str_items_spec(att, "addedNames"@).to_set()).difference(
                str_items_spec(att, "removedNames"@).to_set(),
            ),
            ..s
        }
    } else {
        s
    }
}

/// One parsed record: assistant usage, or an attachment.
pub open spec fn apply_record(v: JsonModel, s: InventoryView) -> InventoryView {
    let msg = model_get(v, "message"@);
    let usage = opt_get(msg, "usage"@);
    if opt_str(model_get(v, "type"@)) == Some("assistant"@) && msg is Some && usage is Some {
        apply_usage_spec(opt_str(opt_get(msg, "id"@)), usage->0, s)
    } else {
        match model_get(v, "attachment"@) {
            Some(att) => apply_attachment(att, s),
            None => s,
        }
    }
}

/// One transcript line: skipped unless it passes the prefilter and parses
/// as JSON; a malformed line never aborts the scan.
#[verifier::opaque]
pub open spec fn apply_line_spec(line: Seq<char>, s: InventoryView) -> InventoryView {
    if !interesting_spec(utf8(line)) {
        s
    } else {
        match json_from_str(line) {
            Some(v) => apply_record(v, s),
            None => s,
        }
    }
}

/// The string elements of the array `att[key]`.
pub fn str_items(att: &serde_json::Value, key: &str) -> (r: Vec<String>)
    ensures
        texts(r@) == str_items_spec(json_contents(*att), key@),
{
    let mut out: Vec<String> = Vec::new();
    match value_get(att, key) {
        None => {
            assert(texts(out@) =~= Seq::<Seq<char>>::empty());
            out
        },
        Some(x) => match value_as_array(x) {
            None => {
                assert(texts(out@) =~= Seq::<Seq<char>>::empty());
                out
            },
            Some(items) => {
                let ghost ms = items@.map_values(|x: serde_json::Value| json_contents(x));
                let mut i: usize = 0;
                while i < items.len()
                    invariant
                        ms == items@.map_values(|x: serde_json::Value| json_contents(x)),
                        i <= items@.len(),
                        texts(out@) == ms.take(i as int).filter_map(
                            |m: JsonModel| model_as_str(m),
                        ),
                    decreases items@.len() - i,
                {
                    let ghost prev = out@;
                    assert(ms.take(i + 1).drop_last() =~= ms.take(i as int));
                    assert(ms.take(i + 1).last() == json_contents(items@[i as int]));
                    match value_as_str(&items[i]) {
                        Some(t) => {
                            out.push(string_from_chars(chars_of(t).as_slice()));
                            assert(texts(out@) =~= texts(prev) + seq![t@]);
                        },
                        None => {},
                    }
                    i = i + 1;
                }
                assert(ms.take(ms.len() as int) =~= ms);
                out
            },
        },
    }
}

impl Inventory {
    /// Counts one usage record: the first record for an id wins, and a
    /// record without an id cannot be deduplicated and is not counted.
    pub fn apply_usage(&mut self, id: Option<&str>, usage: &serde_json::Value)
        ensures
            final(self)@ == apply_usage_spec(
                match id {
                    Some(i) => Some(i@),
                    None => None,
                },
                json_contents(*usage),
                old(self)@,
            ),
    {
        let id = match id {
            Some(i) => i,
            None => return ,
        };
        if id.is_empty() {
            return ;
        }
        if set_contains(&self.counted_ids, id) {
            return ;
        }
        let mut n: u64 = 0;
        if let Some(x) = value_get(usage, "input_tokens") {
            if let Some(k) = value_as_u64(x) {
                n = n.saturating_add(k);
            }
        }
        if let Some(x) = value_get(usage, "cache_creation_input_tokens") {
            if let Some(k) = value_as_u64(x) {
                n = n.saturating_add(k);
            }
        }
        if let Some(x) = value_get(usage, "cache_read_input_tokens") {
            if let Some(k) = value_as_u64(x) {
                n = n.saturating_add(k);
            }
        }
        if let Some(x) = value_get(usage, "output_tokens") {
            if let Some(k) = value_as_u64(x) {
                n = n.saturating_add(k);
            }
        }
        self.total_tokens = self.total_tokens.saturating_add(n);
        set_insert(&mut self.counted_ids, id);
    }

    /// Applies one attachment record.
    fn apply_attachment(&mut self, att: &serde_json::Value)
        ensures
            final(self)@ == apply_attachment(json_contents(*att), old(self)@),
    {
        let kind = match value_get(att, "type") {
            Some(t) => value_as_str(t),
            None => None,
        };
        let kind = match kind {
            Some(k) => k,
            None => return ,
        };
        if str_eq(kind, "skill_listing") {
            let initial = match value_get(att, "isInitial") {
                Some(b) => value_as_bool(b),
                None => None,
            };
            let count = match value_get(att, "skillCount") {
                Some(c) => value_as_u64(c),
                None => None,
            };
            if initial == Some(true) && count.is_some() {
                self.skill_count = count;
            }
        } else if str_eq(kind, "deferred_tools_delta") {
            let added = str_items(att, "addedNames");
            let readded = str_items(att, "readdedNames");
            let removed = str_items(att, "removedNames");
            let pending = str_items(att, "pendingMcpServers");
            let ghost t0 = string_set(self.mcp_tools@);
            let ghost names = texts(added@) + texts(readded@);
            let prefix = chars_of("mcp__");
            let mut i: usize = 0;
            while i < added.len()
                invariant
                    same_scalars(self@, old(self)@),
                    self.mcp_servers@ == old(self).mcp_servers@,
                    prefix@ == "mcp__"@,
                    names == texts(added@) + texts(readded@),
                    i <= added@.len(),
                    string_set(self.mcp_tools@) == t0.union(
                        mcp_tool_names(names.take(i as int)),
                    ),
                decreases added@.len() - i,
            {
                let ghost before = string_set(self.mcp_tools@);
                let name = added[i].as_str();
                assert(names[i as int] == name@);
                if has_prefix(chars_of(name).as_slice(), prefix.as_slice()) {
                    set_insert(&mut self.mcp_tools, name);
                }
                assert(string_set(self.mcp_tools@) =~= t0.union(
                    mcp_tool_names(names.take(i + 1)),
                )) by {
                    assert(names.take(i + 1) =~= names.take(i as int).push(name@));
                    assert forall|n: Seq<char>| #[trigger] names.take(i + 1).contains(n) <==> (
                    names.take(i as int).contains(n) || n == name@) by {
                        if names.take(i + 1).contains(n) {
                            let w = choose|w: int|
                                0 <= w < i + 1 && #[trigger] names.take(i + 1)[w] == n;
                            if w < i {
                                assert(names.take(i as int)[w] == n);
                            }
                        }
                        if names.take(i as int).contains(n) {
                            let w = choose|w: int|
                                0 <= w < i && #[trigger] names.take(i as int)[w] == n;
                            assert(names.take(i + 1)[w] == n);
                        }
                        if n == name@ {
                            assert(names.take(i + 1)[i as int] == n);
                        }
                    }
                }
                i = i + 1;
            }
            let mut j: usize = 0;
            while j < readded.len()
                invariant
                    same_scalars(self@, old(self)@),
                    self.mcp_servers@ == old(self).mcp_servers@,
                    prefix@ == "mcp__"@,
                    names == texts(added@) + texts(readded@),
                    j <= readded@.len(),
                    string_set(self.mcp_tools@) == t0.union(
                        mcp_tool_names(names.take(added@.len() + j)),
                    ),
                decreases readded@.len() - j,
            {
                let name = readded[j].as_str();
                assert(names[added@.len() + j] == name@);
                if has_prefix(chars_of(name).as_slice(), prefix.as_slice()) {
                    set_insert(&mut self.mcp_tools, name);
                }
                assert(string_set(self.mcp_tools@) =~= t0.union(
                    mcp_tool_names(names.take(added@.len() + j + 1)),
                )) by {
                    let a = added@.len() + j;
                    assert(names.take(a + 1) =~= names.take(a).push(name@));
                    assert forall|n: Seq<char>| #[trigger] names.take(a + 1).contains(n) <==> (
                    names.take(a).contains(n) || n == name@) by {
                        if names.take(a + 1).contains(n) {
                            let w = choose|w: int|
                                0 <= w < a + 1 && #[trigger] names.take(a + 1)[w] == n;
                            if w < a {
                                assert(names.take(a)[w] == n);
                            }
                        }
                        if names.take(a).contains(n) {
                            let w = choose|w: int| 0 <= w < a && #[trigger] names.take(a)[w] == n;
                            assert(names.take(a + 1)[w] == n);
                        }
                        if n == name@ {
                            assert(names.take(a + 1)[a] == n);
                        }
                    }
                }
                j = j + 1;
            }
            assert(names.take(names.len() as int) =~= names);
            let ghost t1 = string_set(self.mcp_tools@);
            let mut k: usize = 0;
            while k < removed.len()
                invariant
                    same_scalars(self@, old(self)@),
                    self.mcp_servers@ == old(self).mcp_servers@,
                    k <= removed@.len(),
                    string_set(self.mcp_tools@) == t1.difference(
                        texts(removed@).take(k as int).to_set(),
                    ),
                decreases removed@.len() - k,
            {
                set_remove(&mut self.mcp_tools, removed[k].as_str());
                assert(string_set(self.mcp_tools@) =~= t1.difference(
                    texts(removed@).take(k + 1).to_set(),
                )) by {
                    assert(texts(removed@).take(k + 1) =~= texts(removed@).take(k as int).push(
                        removed@[k as int]@,
                    ));
                    lemma_push_to_set(texts(removed@).take(k as int), removed@[k as int]@);
                }
                k = k + 1;
            }
            assert(texts(removed@).take(removed@.len() as int) =~= texts(removed@));
            let ghost s0 = string_set(self.mcp_servers@);
            let ghost t2 = self.mcp_tools@;
            let mut m: usize = 0;
            while m < pending.len()
                invariant
                    same_scalars(self@, old(self)@),
                    self.mcp_tools@ == t2,
                    m <= pending@.len(),
                    string_set(self.mcp_servers@) == s0.union(
                        texts(pending@).take(m as int).to_set(),
                    ),
                decreases pending@.len() - m,
            {
                set_insert(&mut self.mcp_servers, pending[m].as_str());
                assert(string_set(self.mcp_servers@) =~= s0.union(
                    texts(pending@).take(m + 1).to_set(),
                )) by {
                    assert(texts(pending@).take(m + 1) =~= texts(pending@).take(m as int).push(
                        pending@[m as int]@,
                    ));
                    lemma_push_to_set(texts(pending@).take(m as int), pending@[m as int]@);
                }
                m = m + 1;
            }
            assert(texts(pending@).take(pending@.len() as int) =~= texts(pending@));
        } else if str_eq(kind, "mcp_instructions_delta") {
            let added = str_items(att, "addedNames");
            let removed = str_items(att, "removedNames");
            let ghost s0 = string_set(self.mcp_servers@);
            let mut i: usize = 0;
            while i < added.len()
                invariant
                    same_scalars(self@, old(self)@),
                    self.mcp_tools@ == old(self).mcp_tools@,
                    i <= added@.len(),
                    string_set(self.mcp_servers@) == s0.union(
                        texts(added@).take(i as int).to_set(),
                    ),
                decreases added@.len() - i,
            {
                set_insert(&mut self.mcp_servers, added[i].as_str());
                assert(string_set(self.mcp_servers@) =~= s0.union(
                    texts(added@).take(i + 1).to_set(),
                )) by {
                    assert(texts(added@).take(i + 1) =~= texts(added@).take(i as int).push(
                        added@[i as int]@,
                    ));
                    lemma_push_to_set(texts(added@).take(i as int), added@[i as int]@);
                }
                i = i + 1;
            }
            assert(texts(added@).take(added@.len() as int) =~= texts(added@));
            let ghost s1 = string_set(self.mcp_servers@);
            let mut k: usize = 0;
            while k < removed.len()
                invariant
                    same_scalars(self@, old(self)@),
                    self.mcp_tools@ == old(self).mcp_tools@,
                    k <= removed@.len(),
                    string_set(self.mcp_servers@) == s1.difference(
                        texts(removed@).take(k as int).to_set(),
                    ),
                decreases removed@.len() - k,
            {
                set_remove(&mut self.mcp_servers, removed[k].as_str());
                assert(string_set(self.mcp_servers@) =~= s1.difference(
                    texts(removed@).take(k + 1).to_set(),
                )) by {
                    assert(texts(removed@).take(k + 1) =~= texts(removed@).take(k as int).push(
                        removed@[k as int]@,
                    ));
                    lemma_push_to_set(texts(removed@).take(k as int), removed@[k as int]@);
                }
                k = k + 1;
            }
            assert(texts(removed@).take(removed@.len() as int) =~= texts(removed@));
        }
    }

    /// Applies one transcript line to the inventory.
    pub fn apply_line(&mut self, line: &str)
        ensures
            final(self)@ == apply_line_spec(line@, old(self)@),
    {
        reveal(apply_line_spec);
        if !interesting(line) {
            return ;
        }
        let v = match parse_value(line) {
            Some(v) => v,
            None => return ,
        };
        let is_assistant = match value_get(&v, "type") {
            Some(t) => match value_as_str(t) {
                Some(k) => str_eq(k, "assistant"),
                None => false,
            },
            None => false,
        };
        if is_assistant {
            if let Some(msg) = value_get(&v, "message") {
                if let Some(usage) = value_get(msg, "usage") {
                    let id = match value_get(msg, "id") {
                        Some(i) => value_as_str(i),
                        None => None,
                    };
                    self.apply_usage(id, usage);
                    return ;
                }
            }
        }
        match value_get(&v, "attachment") {
            Some(att) => self.apply_attachment(att),
            None => {},
        }
    }
}

// ---------------------------------------------------------------------
// Passes over the transcript
// ---------------------------------------------------------------------

/// The first position of `x` in `b`.
pub open spec fn first_index(b: Seq<u8>, x: u8) -> Option<int> {
    if exists|i: int| 0 <= i < b.len() && b[i] == x {
        Some(
            choose|i: int|
                0 <= i < b.len() && b[i] == x && forall|j: int| 0 <= j < i ==> b[j] != x,
        )
    } else {
        None
    }
}

/// The last position of `x` in `b`.
pub open spec fn last_index(b: Seq<u8>, x: u8) -> Option<int> {
    if exists|i: int| 0 <= i < b.len() && b[i] == x {
        Some(
            choose|i: int|
                0 <= i < b.len() && b[i] == x && forall|j: int| i < j < b.len() ==> b[j] != x,
        )
    } else {
        None
    }
}

proof fn lemma_index_bounds(b: Seq<u8>, x: u8)
    ensures
        first_index(b, x) matches Some(i) ==> 0 <= i < b.len() && b[i] == x,
        last_index(b, x) matches Some(i) ==> 0 <= i < b.len() && b[i] == x,
{
    if exists|i: int| 0 <= i < b.len() && b[i] == x {
        let w = choose|i: int| 0 <= i < b.len() && b[i] == x;
        lemma_first_witness(b, x, w);
        lemma_last_witness(b, x, w);
    }
}

proof fn lemma_first_witness(b: Seq<u8>, x: u8, w: int)
    requires
        0 <= w < b.len(),
        b[w] == x,
    ensures
        exists|i: int| 0 <= i < b.len() && b[i] == x && forall|j: int| 0 <= j < i ==> b[j] != x,
    decreases w,
{
    if exists|j: int| 0 <= j < w && b[j] == x {
        let j = choose|j: int| 0 <= j < w && b[j] == x;
        lemma_first_witness(b, x, j);
    } else {
        assert(forall|j: int| 0 <= j < w ==> b[j] != x);
    }
}

proof fn lemma_last_witness(b: Seq<u8>, x: u8, w: int)
    requires
        0 <= w < b.len(),
        b[w] == x,
    ensures
        exists|i: int|
            0 <= i < b.len() && b[i] == x && forall|j: int| i < j < b.len() ==> b[j] != x,
    decreases b.len() - w,
{
    if exists|j: int| w < j < b.len() && b[j] == x {
        let j = choose|j: int| w < j < b.len() && b[j] == x;
        lemma_last_witness(b, x, j);
    } else {
        assert(forall|j: int| w < j < b.len() ==> b[j] != x);
    }
}

/// The position of the first `x` in `b`.
fn position(b: &[u8], x: u8) -> (r: Option<usize>)
    ensures
        r matches Some(i) ==> i < b@.len() && b@[i as int] == x,
        r matches Some(k) ==> first_index(b@, x) == Some(k as int),
        r is None ==> first_index(b@, x) is None,
{
    let mut i: usize = 0;
    while i < b.len()
        invariant
            i <= b@.len(),
            forall|j: int| 0 <= j < i ==> b@[j] != x,
        decreases b@.len() - i,
    {
        if b[i] == x {
            proof {
                let w = choose|w: int|
                    0 <= w < b@.len() && b@[w] == x && forall|j: int| 0 <= j < w ==> b@[j] != x;
                assert(0 <= i < b@.len() && b@[i as int] == x && forall|j: int|
                    0 <= j < i ==> b@[j] != x);
                if w < i {
                } else if w > i {
                    assert(b@[i as int] != x);
                }
            }
            return Some(i);
        }
        i = i + 1;
    }
    None
}

/// The position of the last `x` in `b`.
fn rposition(b: &[u8], x: u8) -> (r: Option<usize>)
    ensures
        r matches Some(i) ==> i < b@.len() && b@[i as int] == x,
        r matches Some(k) ==> last_index(b@, x) == Some(k as int),
        r is None ==> last_index(b@, x) is None,
{
    let mut i: usize = b.len();
    while i > 0
        invariant
            i <= b@.len(),
            forall|j: int| i <= j < b@.len() ==> b@[j] != x,
        decreases i,
    {
        if b[i - 1] == x {
            proof {
                let k = (i - 1) as int;
                let w = choose|w: int|
                    0 <= w < b@.len() && b@[w] == x && forall|j: int| w < j < b@.len() ==> b@[j]
                        != x;
                assert(0 <= k < b@.len() && b@[k] == x && forall|j: int|
                    k < j < b@.len() ==> b@[j] != x);
                if w < k {
                    assert(b@[k] != x);
                } else if w > k {
                }
            }
            return Some(i - 1);
        }
        i = i - 1;
    }
    None
}

/// The state after one line per element of `ls`, in order.
pub open spec fn apply_lines(ls: Seq<Seq<char>>, s: InventoryView) -> InventoryView {
    ls.fold_left(s, |st: InventoryView, l: Seq<char>| apply_line_spec(l, st))
}

/// The head of a dropped oversized line classifies it as relevant.
pub open spec fn relevant_head(chunk: Seq<u8>) -> bool {
    contains_bytes(head_spec(chunk), utf8("\"role\":\"assistant\""@)) || contains_bytes(
        head_spec(chunk),
        utf8("\"attachment\":"@),
    )
}

/// Start of a pass: a transcript shorter than the stored offset was
/// truncated, so the state resets; at the end of the file there is nothing
/// to read and the scan is caught up unless it is inside an oversized line.
/// The flag says whether to read bytes from `offset` on.
pub open spec fn begin_pass_spec(s: InventoryView, len: u64) -> (InventoryView, bool) {
    let s1 = if s.offset > len {
        empty_inventory()
    } else {
        s
    };
    if s1.offset == len {
        (InventoryView { caught_up: !s1.skipping, ..s1 }, false)
    } else {
        (InventoryView { caught_up: false, ..s1 }, true)
    }
}

/// What one pass makes of `buf`, the bytes read from `offset` on (at most
/// `max_bytes` of them) in a transcript of `len` bytes.
///
/// Inside an oversized line, bytes up to and including the next newline
/// are discarded first (all of `buf` when it has none). Then every
/// complete line is applied and consumed; a partial trailing line is left
/// for the next pass, unless it fills the whole budget: such a line is
/// longer than the budget, is consumed unparsed, and marks the total lossy
/// when its head looks relevant.
pub open spec fn apply_pass_spec(
    s: InventoryView,
    len: u64,
    buf: Seq<u8>,
    max_bytes: usize,
) -> InventoryView {
    if s.skipping {
        match first_index(buf, 10) {
            None => InventoryView { offset: (s.offset + buf.len()) as u64, ..s },
            Some(i) => finish_pass_spec(
                InventoryView { offset: (s.offset + i + 1) as u64, skipping: false, ..s },
                len,
                buf.skip(i + 1),
                max_bytes,
            ),
        }
    } else {
        finish_pass_spec(s, len, buf, max_bytes)
    }
}

/// The part of a pass after any oversized line was discarded: complete
/// lines of `chunk` are applied and consumed, a trailing piece is kept
/// unless it fills the budget.
#[verifier::opaque]
pub open spec fn finish_pass_spec(
    s: InventoryView,
    len: u64,
    chunk: Seq<u8>,
    max_bytes: usize,
) -> InventoryView {
    let s2 = match last_index(chunk, 10) {
        Some(idx) => {
            let s3 = apply_lines(lines_of(lossy_utf8(chunk.take(idx + 1))), s);
            InventoryView { offset: (s3.offset + idx + 1) as u64, ..s3 }
        },
        None => if chunk.len() == max_bytes {
            InventoryView {
                lossy: s.lossy || relevant_head(chunk),
                offset: (s.offset + chunk.len()) as u64,
                skipping: true,
                ..s
            }
        } else {
            s
        },
    };
    InventoryView { caught_up: s2.offset == len && !s2.skipping, ..s2 }
}

/// A line never moves the scan position or its flags.
pub proof fn lemma_line_keeps_scan(l: Seq<char>, s: InventoryView)
    ensures
        apply_line_spec(l, s).offset == s.offset,
        apply_line_spec(l, s).skipping == s.skipping,
        apply_line_spec(l, s).caught_up == s.caught_up,
        apply_line_spec(l, s).lossy == s.lossy,
{
    reveal(apply_line_spec);
}

proof fn lemma_lines_keep_scan(ls: Seq<Seq<char>>, s: InventoryView)
    ensures
        apply_lines(ls, s).offset == s.offset,
        apply_lines(ls, s).skipping == s.skipping,
        apply_lines(ls, s).caught_up == s.caught_up,
        apply_lines(ls, s).lossy == s.lossy,
    decreases ls.len(),
{
    if ls.len() > 0 {
        lemma_lines_keep_scan(ls.drop_last(), s);
        lemma_line_keeps_scan(ls.last(), apply_lines(ls.drop_last(), s));
    }
}

impl Inventory {
    /// Starts a pass over a transcript of `len` bytes; returns whether
    /// bytes must be read from `offset` on.
    pub fn begin_pass(&mut self, len: u64) -> (r: bool)
        ensures
            (final(self)@, r) == begin_pass_spec(old(self)@, len),
    {
        if self.offset > len {
            *self = Inventory::default();
        }
        if self.offset == len {
            self.caught_up = !self.skipping;
            return false;
        }
        self.caught_up = false;
        true
    }

    /// Applies every line of `body`, a run of complete lines.
    fn apply_complete_lines(&mut self, body: &[u8])
        ensures
            final(self)@ == apply_lines(lines_of(lossy_utf8(body@)), old(self)@),
            final(self)@.offset == old(self)@.offset,
            final(self)@.skipping == old(self)@.skipping,
            final(self)@.caught_up == old(self)@.caught_up,
            final(self)@.lossy == old(self)@.lossy,
    {
        let ghost s1 = self@;
        let text = utf8_lossy(body);
        let cs = chars_of(text.as_str());
        let lines = split_lines(cs.as_slice());
        let ghost ls = lines_of(lossy_utf8(body@));
        let mut i: usize = 0;
        while i < lines.len()
            invariant
                ls == lines_of(lossy_utf8(body@)),
                lines@.len() == ls.len(),
                forall|k: int| 0 <= k < lines@.len() ==> #[trigger] lines@[k]@ == ls[k],
                i <= lines@.len(),
                self@ == apply_lines(ls.take(i as int), s1),
            decreases lines@.len() - i,
        {
            let line = string_from_chars(lines[i].as_slice());
            assert(line@ == ls[i as int]);
            assert(ls.take(i + 1).drop_last() =~= ls.take(i as int));
            self.apply_line(line.as_str());
            i = i + 1;
        }
        assert(ls.take(ls.len() as int) =~= ls);
        proof {
            lemma_lines_keep_scan(ls, s1);
        }
    }

    /// The part of a pass after any oversized line was discarded.
    #[verifier::rlimit(40)]
    fn finish_pass(&mut self, len: u64, chunk: &[u8], max_bytes: usize)
        requires
            old(self).offset + chunk@.len() <= u64::MAX,
        ensures
            final(self)@ == finish_pass_spec(old(self)@, len, chunk@, max_bytes),
    {
        reveal(finish_pass_spec);
        let ghost s0 = self@;
        let n = chunk.len();
        match rposition(chunk, 10u8) {
            Some(idx) => {
                let complete = idx + 1;
                let (body, _) = chunk.split_at(complete);
                assert(body@ =~= chunk@.take(complete as int));
                self.apply_complete_lines(body);
                let ghost s3 = apply_lines(lines_of(lossy_utf8(chunk@.take(idx + 1))), s0);
                assert(self@ == s3);
                self.offset = self.offset + complete as u64;
                assert(self@ == InventoryView { offset: (s3.offset + idx + 1) as u64, ..s3 });
            },
            None => {
                if n == max_bytes {
                    let h = head_of(chunk);
                    let role = "\"role\":\"assistant\"".as_bytes();
                    let att = "\"attachment\":".as_bytes();
                    proof {
                        reveal_strlit("\"role\":\"assistant\"");
                        reveal_strlit("\"attachment\":");
                        lemma_utf8_nonempty("\"role\":\"assistant\""@);
                        lemma_utf8_nonempty("\"attachment\":"@);
                    }
                    let rel = contains_seq(h, role) || contains_seq(h, att);
                    assert(rel == relevant_head(chunk@));
                    if rel {
                        self.lossy = true;
                    }
                    self.offset = self.offset + n as u64;
                    self.skipping = true;
                    assert(self@ == InventoryView {
                        lossy: s0.lossy || relevant_head(chunk@),
                        offset: (s0.offset + chunk@.len()) as u64,
                        skipping: true,
                        ..s0
                    });
                } else {
                    assert(self@ == s0);
                }
            },
        }
        let ghost s2 = self@;
        self.caught_up = self.offset == len && !self.skipping;
        assert(self@ == InventoryView { caught_up: s2.offset == len && !s2.skipping, ..s2 });
    }

    /// Applies the bytes `buf` read from `offset` on, at most `max_bytes`
    /// of them, in a transcript of `len` bytes.
    pub fn apply_pass(&mut self, len: u64, buf: &[u8], max_bytes: usize)
        requires
            old(self).offset + buf@.len() <= u64::MAX,
        ensures
            final(self)@ == apply_pass_spec(old(self)@, len, buf@, max_bytes),
    {
        let n = buf.len();
        if self.skipping {
            match position(buf, 10u8) {
                Some(i) => {
                    let start = i + 1;
                    self.offset = self.offset + start as u64;
                    self.skipping = false;
                    let (_, chunk) = buf.split_at(start);
                    assert(chunk@ =~= buf@.skip(start as int));
                    self.finish_pass(len, chunk, max_bytes);
                },
                None => {
                    self.offset = self.offset + buf.len() as u64;
                },
            }
        } else {
            self.finish_pass(len, buf, max_bytes);
        }
    }
}

// ---------------------------------------------------------------------
// Laws
// ---------------------------------------------------------------------

proof fn lemma_attachment_idempotent(att: JsonModel, s: InventoryView)
    ensures
        apply_attachment(att, apply_attachment(att, s)) == apply_attachment(att, s),
{
    let t = apply_attachment(att, s);
    let kind = opt_str(model_get(att, "type"@));
    reveal_strlit("skill_listing");
    reveal_strlit("deferred_tools_delta");
    reveal_strlit("mcp_instructions_delta");
    assert("skill_listing"@.len() != "deferred_tools_delta"@.len());
    assert("skill_listing"@.len() != "mcp_instructions_delta"@.len());
    assert("deferred_tools_delta"@.len() != "mcp_instructions_delta"@.len());
    if kind == Some("deferred_tools_delta"@) {
        let added = mcp_tool_names(
            str_items_spec(att, "addedNames"@) + str_items_spec(att, "readdedNames"@),
        );
        let removed = str_items_spec(att, "removedNames"@).to_set();
        let pending = str_items_spec(att, "pendingMcpServers"@).to_set();
        assert(t.mcp_tools == s.mcp_tools.union(added).difference(removed));
        assert(t.mcp_servers == s.mcp_servers.union(pending));
        assert(t.mcp_tools.union(added).difference(removed) =~= t.mcp_tools);
        assert(t.mcp_servers.union(pending) =~= t.mcp_servers);
    } else if kind == Some("mcp_instructions_delta"@) {
        let added = str_items_spec(att, "addedNames"@).to_set();
        let removed = str_items_spec(att, "removedNames"@).to_set();
        assert(t.mcp_servers == s.mcp_servers.union(added).difference(removed));
        assert(t.mcp_servers.union(added).difference(removed) =~= t.mcp_servers);
    }
}

proof fn lemma_record_idempotent(v: JsonModel, s: InventoryView)
    ensures
        apply_record(v, apply_record(v, s)) == apply_record(v, s),
{
    let msg = model_get(v, "message"@);
    let usage = opt_get(msg, "usage"@);
    if opt_str(model_get(v, "type"@)) == Some("assistant"@) && msg is Some && usage is Some {
    } else {
        match model_get(v, "attachment"@) {
            Some(att) => lemma_attachment_idempotent(att, s),
            None => {},
        }
    }
}

/// Applying the same transcript line twice changes nothing the second
/// time: a repeated message id counts once, a repeated listing or delta
/// leaves the inventory as the first one left it.
pub proof fn law_apply_line_idempotent(line: Seq<char>, s: InventoryView)
    ensures
        apply_line_spec(line, apply_line_spec(line, s)) == apply_line_spec(line, s),
{
    reveal(apply_line_spec);
    if interesting_spec(utf8(line)) {
        match json_from_str(line) {
            Some(v) => lemma_record_idempotent(v, s),
            None => {},
        }
    }
}

/// The total is a sum over distinct message ids: a record whose id was
/// already counted adds nothing, wherever it appears in the transcript; a
/// new id adds its usage once and is remembered.
pub proof fn law_ids_count_once(i: Seq<char>, usage: JsonModel, s: InventoryView)
    ensures
        s.counted_ids.contains(i) ==> apply_usage_spec(Some(i), usage, s) == s,
        i.len() > 0 && !s.counted_ids.contains(i) ==> {
            let t = apply_usage_spec(Some(i), usage, s);
            &&& t.total_tokens == s.total_tokens.saturating_add(usage_sum(usage))
            &&& t.counted_ids == s.counted_ids.insert(i)
            &&& apply_usage_spec(Some(i), usage, t) == t
        },
{
}

/// An attachment line applies its delta with set semantics: a
/// `deferred_tools_delta` adds the `mcp__` names of `addedNames` and
/// `readdedNames` to the live tools, then takes out `removedNames`, and adds
/// `pendingMcpServers` to the servers; an `mcp_instructions_delta` adds its
/// `addedNames` servers and takes out its `removedNames`. Nothing else of
/// the state changes.
pub proof fn law_attachment_line(line: Seq<char>, s: InventoryView, v: JsonModel, att: JsonModel)
    requires
        interesting_spec(utf8(line)),
        json_from_str(line) == Some(v),
        !(opt_str(model_get(v, "type"@)) == Some("assistant"@) && model_get(v, "message"@) is Some
            && opt_get(model_get(v, "message"@), "usage"@) is Some),
        model_get(v, "attachment"@) == Some(att),
    ensures
        ({
            let t = apply_line_spec(line, s);
            let kind = opt_str(model_get(att, "type"@));
            &&& kind == Some("deferred_tools_delta"@) ==> {
                &&& t.mcp_tools == s.mcp_tools.union(
                    mcp_tool_names(
                        str_items_spec(att, "addedNames"@) + str_items_spec(att, "readdedNames"@),
                    ),
                ).difference(str_items_spec(att, "removedNames"@).to_set())
                &&& t.mcp_servers == s.mcp_servers.union(
                    str_items_spec(att, "pendingMcpServers"@).to_set(),
                )
                &&& same_scalars(t, s)
            }
            &&& kind == Some("mcp_instructions_delta"@) ==> {
                &&& t.mcp_servers == s.mcp_servers.union(
                    str_items_spec(att, "addedNames"@).to_set(),
                ).difference(str_items_spec(att, "removedNames"@).to_set())
                &&& t.mcp_tools == s.mcp_tools
                &&& same_scalars(t, s)
            }
        }),
{
    reveal(apply_line_spec);
    reveal_strlit("deferred_tools_delta");
    reveal_strlit("mcp_instructions_delta");
    reveal_strlit("skill_listing");
    assert("skill_listing"@.len() != "deferred_tools_delta"@.len());
    assert("skill_listing"@.len() != "mcp_instructions_delta"@.len());
    assert("deferred_tools_delta"@.len() != "mcp_instructions_delta"@.len());
}

/// Every assistant response counts, however long: a line whose first 512
/// bytes name the assistant role and which mentions `"usage"` anywhere,
/// and which parses as an assistant record with a message and its usage,
/// applies that usage to the total, wherever in the line the usage sits.
pub proof fn law_assistant_usage_counts_wherever_it_sits(
    line: Seq<char>,
    s: InventoryView,
    v: JsonModel,
)
    requires
        contains_bytes(head_spec(utf8(line)), utf8("\"role\":\"assistant\""@)),
        contains_bytes(utf8(line), utf8("\"usage\""@)),
        json_from_str(line) == Some(v),
        opt_str(model_get(v, "type"@)) == Some("assistant"@),
        model_get(v, "message"@) is Some,
        opt_get(model_get(v, "message"@), "usage"@) is Some,
    ensures
        apply_line_spec(line, s) == apply_usage_spec(
            opt_str(opt_get(model_get(v, "message"@), "id"@)),
            opt_get(model_get(v, "message"@), "usage"@)->0,
            s,
        ),
{
    reveal(apply_line_spec);
}

/// The session token total never decreases.
pub proof fn law_tokens_never_decrease(line: Seq<char>, s: InventoryView)
    ensures
        apply_line_spec(line, s).total_tokens >= s.total_tokens,
{
    reveal(apply_line_spec);
}

/// A transcript shorter than the stored offset was truncated: the pass
/// starts over from an empty state, so nothing of the old file survives.
pub proof fn law_truncation_resets(s: InventoryView, len: u64)
    requires
        s.offset > len,
    ensures
        ({
            let t = begin_pass_spec(s, len).0;
            &&& t.offset == 0
            &&& !t.skipping
            &&& !t.lossy
            &&& t.skill_count is None
            &&& t.mcp_tools == Set::<Seq<char>>::empty()
            &&& t.mcp_servers == Set::<Seq<char>>::empty()
            &&& t.total_tokens == 0
            &&& t.counted_ids == Set::<Seq<char>>::empty()
        }),
{
}

/// The scan is never reported caught up before it reached the end of the
/// transcript outside an oversized line: this is what keeps a partial sum
/// from rendering as a total.
pub proof fn law_caught_up_only_at_end(
    s: InventoryView,
    len: u64,
    buf: Seq<u8>,
    max_bytes: usize,
)
    ensures
        ({
            let (t, read) = begin_pass_spec(s, len);
            &&& t.caught_up ==> t.offset == len && !t.skipping
            &&& read ==> {
                let u = apply_pass_spec(t, len, buf, max_bytes);
                u.caught_up ==> u.offset == len && !u.skipping
            }
        }),
{
    reveal(finish_pass_spec);
}

/// A partial trailing line is never consumed: when no newline arrives and
/// the bytes do not fill the budget, the offset and the inventory stay.
pub proof fn law_partial_line_not_consumed(
    s: InventoryView,
    len: u64,
    buf: Seq<u8>,
    max_bytes: usize,
)
    requires
        !s.skipping,
        (last_index(buf, 10) is None),
        buf.len() < max_bytes,
    ensures
        apply_pass_spec(s, len, buf, max_bytes) == (InventoryView {
            caught_up: s.offset == len,
            ..s
        }),
{
    reveal(finish_pass_spec);
}

/// The part of a pass after any oversized line ends on a line start: when
/// it consumes bytes without entering an oversized line, the last byte it
/// consumed is a newline.
proof fn lemma_finish_ends_after_newline(
    s: InventoryView,
    len: u64,
    chunk: Seq<u8>,
    max_bytes: usize,
)
    requires
        s.offset + chunk.len() <= u64::MAX,
    ensures
        ({
            let t = finish_pass_spec(s, len, chunk, max_bytes);
            !t.skipping && t.offset > s.offset ==> chunk[t.offset - s.offset - 1] == 10
        }),
{
    reveal(finish_pass_spec);
    lemma_index_bounds(chunk, 10);
    match last_index(chunk, 10) {
        Some(idx) => {
            lemma_lines_keep_scan(lines_of(lossy_utf8(chunk.take(idx + 1))), s);
        },
        None => {},
    }
}

proof fn lemma_skipping_pass_ends_after_newline(
    s: InventoryView,
    len: u64,
    buf: Seq<u8>,
    max_bytes: usize,
    i: int,
)
    requires
        s.offset + buf.len() <= u64::MAX,
        0 <= i < buf.len(),
        buf[i] == 10,
    ensures
        ({
            let s1 = InventoryView { offset: (s.offset + i + 1) as u64, skipping: false, ..s };
            let t = finish_pass_spec(s1, len, buf.skip(i + 1), max_bytes);
            !t.skipping && t.offset > s.offset ==> buf[t.offset - s.offset - 1] == 10
        }),
{
    let s1 = InventoryView { offset: (s.offset + i + 1) as u64, skipping: false, ..s };
    let rest = buf.skip(i + 1);
    lemma_finish_ends_after_newline(s1, len, rest, max_bytes);
    lemma_finish_progress(s1, len, rest, max_bytes);
    let t = finish_pass_spec(s1, len, rest, max_bytes);
    let k: int = t.offset - s1.offset;
    if k > 0 {
        assert(rest[k - 1] == buf[i + k]);
    }
}

/// The scan offset only ever lands just after a newline: when a pass moves
/// the offset and leaves the scan outside an oversized line, the last byte
/// it consumed is a newline. Starting from offset 0, the offset so always
/// sits at the start of a line.
pub proof fn law_pass_ends_at_line_start(
    s: InventoryView,
    len: u64,
    buf: Seq<u8>,
    max_bytes: usize,
)
    requires
        s.offset + buf.len() <= u64::MAX,
    ensures
        ({
            let t = apply_pass_spec(s, len, buf, max_bytes);
            !t.skipping && t.offset > s.offset ==> buf[t.offset - s.offset - 1] == 10
        }),
{
    if s.skipping {
        lemma_index_bounds(buf, 10);
        match first_index(buf, 10) {
            Some(i) => lemma_skipping_pass_ends_after_newline(s, len, buf, max_bytes, i),
            None => {},
        }
    } else {
        lemma_finish_ends_after_newline(s, len, buf, max_bytes);
    }
}

/// A pass that reads a full budget always makes progress, so a line longer
/// than the budget cannot wedge the scan; and a pass never moves the
/// offset past the bytes it was given.
pub proof fn law_pass_progress(s: InventoryView, len: u64, buf: Seq<u8>, max_bytes: usize)
    requires
        s.offset + buf.len() <= u64::MAX,
    ensures
        apply_pass_spec(s, len, buf, max_bytes).offset <= s.offset + buf.len(),
        apply_pass_spec(s, len, buf, max_bytes).offset >= s.offset,
        buf.len() == max_bytes && max_bytes > 0 ==> apply_pass_spec(
            s,
            len,
            buf,
            max_bytes,
        ).offset > s.offset,
{
    lemma_index_bounds(buf, 10);
    if s.skipping {
        match first_index(buf, 10) {
            Some(i) => {
                let s1 = InventoryView { offset: (s.offset + i + 1) as u64, skipping: false, ..s };
                let chunk = buf.skip(i + 1);
                lemma_finish_progress(s1, len, chunk, max_bytes);
            },
            None => {},
        }
    } else {
        lemma_finish_progress(s, len, buf, max_bytes);
    }
}

proof fn lemma_finish_progress(s: InventoryView, len: u64, chunk: Seq<u8>, max_bytes: usize)
    requires
        s.offset + chunk.len() <= u64::MAX,
    ensures
        finish_pass_spec(s, len, chunk, max_bytes).offset <= s.offset + chunk.len(),
        finish_pass_spec(s, len, chunk, max_bytes).offset >= s.offset,
        chunk.len() == max_bytes && max_bytes > 0 ==> finish_pass_spec(
            s,
            len,
            chunk,
            max_bytes,
        ).offset > s.offset,
{
    reveal(finish_pass_spec);
    lemma_index_bounds(chunk, 10);
    match last_index(chunk, 10) {
        Some(idx) => {
            lemma_lines_keep_scan(lines_of(lossy_utf8(chunk.take(idx + 1))), s);
        },
        None => {},
    }
}

} // verus!
