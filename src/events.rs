use vstd::prelude::*;
use vstd::string::*;

verus! {

/// Name of the event standard that the ledger's logs follow.
pub const NFT_STANDARD_NAME: &'static str = "nep171";

/// Version of that standard.
pub const NFT_METADATA_SPEC: &'static str = "nft-1.0.0";

/// A hexadecimal digit, in lower case.
pub open spec fn hex_digit(d: int) -> char {
    seq!['0', '1', '2', '3', '4', '5', '6', '7', '8', '9', 'a', 'b', 'c', 'd', 'e', 'f'][d]
}

/// How a character stands inside a JSON string: quote and backslash behind a
/// backslash, the five control characters with a short escape in it, the
/// other characters below U+0020 as `\u00xx`, and every other character as it is.
pub open spec fn json_escaped_char(c: char) -> Seq<char> {
    if c == '"' {
        seq!['\\', '"']
    } else if c == '\\' {
        seq!['\\', '\\']
    } else if c == '\x08' {
        seq!['\\', 'b']
    } else if c == '\t' {
        seq!['\\', 't']
    } else if c == '\n' {
        seq!['\\', 'n']
    } else if c == '\x0c' {
        seq!['\\', 'f']
    } else if c == '\r' {
        seq!['\\', 'r']
    } else if (c as u32) < 0x20 {
        seq!['\\', 'u', '0', '0', hex_digit((c as u32) as int / 16), hex_digit((c as u32) as int % 16)]
    } else {
        seq![c]
    }
}

/// The characters of a text, each escaped for a JSON string.
pub open spec fn json_escaped(s: Seq<char>) -> Seq<char>
    decreases s.len(),
{
    if s.len() == 0 {
        Seq::empty()
    } else {
        json_escaped(s.drop_last()) + json_escaped_char(s.last())
    }
}

/// The JSON string literal for a text: its escaped characters between quotes.
pub open spec fn json_quoted(s: Seq<char>) -> Seq<char> {
    seq!['"'] + json_escaped(s) + seq!['"']
}

/// Relies on `serde_json::to_string` on a `str`: it writes a quote, each
/// character as `json_escaped_char` gives it (its `ESCAPE` table and
/// `write_char_escape`), and a quote, into memory, which cannot fail.
#[verifier::external_body]
fn quote_json(s: &str) -> (r: String)
    ensures
        r@ == json_quoted(s@),
{
    serde_json::to_string(s).unwrap_or_default()
}

/// The parts joined with commas.
pub open spec fn json_list(parts: Seq<Seq<char>>) -> Seq<char>
    decreases parts.len(),
{
    if parts.len() == 0 {
        Seq::empty()
    } else if parts.len() == 1 {
        parts[0]
    } else {
        json_list(parts.drop_last()) + ","@ + parts.last()
    }
}

/// A JSON array of strings.
pub open spec fn json_strings(items: Seq<String>) -> Seq<char> {
    "["@ + json_list(items.map_values(|s: String| json_quoted(s@))) + "]"@
}

/// The `"memo":...` member, after a comma, or nothing without a memo.
pub open spec fn memo_json(memo: Option<String>) -> Seq<char> {
    match memo {
        Some(m) => ",\"memo\":"@ + json_quoted(m@),
        None => Seq::empty(),
    }
}

/// The record of minted tokens.
pub struct NftMintLog {
    pub owner_id: String,
    pub token_ids: Vec<String>,
    pub memo: Option<String>,
}

/// The record of a transfer.
pub struct NftTransferLog {
    pub authorized_id: Option<String>,
    pub old_owner_id: String,
    pub new_owner_id: String,
    pub token_ids: Vec<String>,
    pub memo: Option<String>,
}

/// The kind of an event, with its records.
pub enum EventLogVariant {
    NftMint(Vec<NftMintLog>),
    NftTransfer(Vec<NftTransferLog>),
}

/// An event as the ledger logs it: the standard, its version, and the event.
pub struct EventLog {
    pub standard: String,
    pub version: String,
    pub event: EventLogVariant,
}

pub open spec fn mint_json(m: NftMintLog) -> Seq<char> {
    "{\"owner_id\":"@ + json_quoted(m.owner_id@) + ",\"token_ids\":"@ + json_strings(m.token_ids@) + memo_json(m.memo)
        + "}"@
}

pub open spec fn authorized_json(a: Option<String>) -> Seq<char> {
    match a {
        Some(id) => "\"authorized_id\":"@ + json_quoted(id@) + ","@,
        None => Seq::empty(),
    }
}

pub open spec fn transfer_json(t: NftTransferLog) -> Seq<char> {
    "{"@ + authorized_json(t.authorized_id) + "\"old_owner_id\":"@ + json_quoted(t.old_owner_id@)
        + ",\"new_owner_id\":"@ + json_quoted(t.new_owner_id@) + ",\"token_ids\":"@ + json_strings(t.token_ids@)
        + memo_json(t.memo) + "}"@
}

pub open spec fn event_data_json(e: EventLogVariant) -> Seq<char> {
    match e {
        EventLogVariant::NftMint(v) => "\"event\":\"nft_mint\",\"data\":["@ + json_list(v@.map_values(|m: NftMintLog| mint_json(m)))
            + "]"@,
        EventLogVariant::NftTransfer(v) => "\"event\":\"nft_transfer\",\"data\":["@ + json_list(
            v@.map_values(|t: NftTransferLog| transfer_json(t)),
        ) + "]"@,
    }
}

/// The line that the ledger writes to its log for an event.
pub open spec fn event_line(e: EventLog) -> Seq<char> {
    "EVENT_JSON:{\"standard\":"@ + json_quoted(e.standard@) + ",\"version\":"@ + json_quoted(e.version@) + ","@
        + event_data_json(e.event) + "}"@
}

proof fn lemma_list_push(parts: Seq<Seq<char>>, p: Seq<char>)
    ensures
        json_list(parts.push(p)) == if parts.len() == 0 { p } else { json_list(parts) + ","@ + p },
{
    assert(parts.push(p).drop_last() == parts);
}

fn append_strings(out: &mut String, items: &Vec<String>)
    ensures
        final(out)@ == old(out)@ + json_strings(items@),
{
    out.append("[");
    let ghost start = out@;
    let ghost f = |s: String| json_quoted(s@);
    let mut i: usize = 0;
    while i < items.len()
        invariant
            i <= items@.len(),
            out@ == start + json_list(items@.take(i as int).map_values(f)),
            f == (|s: String| json_quoted(s@)),
        decreases items@.len() - i,
    {
        proof {
            assert(items@.take(i as int + 1).map_values(f) == items@.take(i as int).map_values(f).push(f(items@[i as int])));
            lemma_list_push(items@.take(i as int).map_values(f), f(items@[i as int]));
        }
        if i > 0 {
            out.append(",");
        }
        let q = quote_json(items[i].as_str());
        out.append(q.as_str());
        i = i + 1;
    }
    proof {
        assert(items@.take(i as int) == items@);
    }
    out.append("]");
}

fn append_memo(out: &mut String, memo: &Option<String>)
    ensures
        final(out)@ == old(out)@ + memo_json(*memo),
{
    match memo {
        Some(m) => {
            out.append(",\"memo\":");
            let q = quote_json(m.as_str());
            out.append(q.as_str());
        },
        None => {},
    }
}

impl NftMintLog {
    fn append_json(&self, out: &mut String)
        ensures
            final(out)@ == old(out)@ + mint_json(*self),
    {
        out.append("{\"owner_id\":");
        let q = quote_json(self.owner_id.as_str());
        out.append(q.as_str());
        out.append(",\"token_ids\":");
        append_strings(out, &self.token_ids);
        append_memo(out, &self.memo);
        out.append("}");
    }
}

impl NftTransferLog {
    fn append_json(&self, out: &mut String)
        ensures
            final(out)@ == old(out)@ + transfer_json(*self),
    {
        out.append("{");
        match &self.authorized_id {
            Some(id) => {
                out.append("\"authorized_id\":");
                let q = quote_json(id.as_str());
                out.append(q.as_str());
                out.append(",");
            },
            None => {},
        }
        out.append("\"old_owner_id\":");
        let q = quote_json(self.old_owner_id.as_str());
        out.append(q.as_str());
        out.append(",\"new_owner_id\":");
        let q = quote_json(self.new_owner_id.as_str());
        out.append(q.as_str());
        out.append(",\"token_ids\":");
        append_strings(out, &self.token_ids);
        append_memo(out, &self.memo);
        out.append("}");
    }
}

impl EventLogVariant {
    fn append_json(&self, out: &mut String)
        ensures
            final(out)@ == old(out)@ + event_data_json(*self),
    {
        match self {
            EventLogVariant::NftMint(v) => {
                out.append("\"event\":\"nft_mint\",\"data\":[");
                let ghost start = out@;
                let ghost f = |m: NftMintLog| mint_json(m);
                let mut i: usize = 0;
                while i < v.len()
                    invariant
                        i <= v@.len(),
                        out@ == start + json_list(v@.take(i as int).map_values(f)),
                        f == (|m: NftMintLog| mint_json(m)),
                    decreases v@.len() - i,
                {
                    proof {
                        assert(v@.take(i as int + 1).map_values(f) == v@.take(i as int).map_values(f).push(f(v@[i as int])));
                        lemma_list_push(v@.take(i as int).map_values(f), f(v@[i as int]));
                    }
                    if i > 0 {
                        out.append(",");
                    }
                    v[i].append_json(out);
                    i = i + 1;
                }
                proof {
                    assert(v@.take(i as int) == v@);
                }
                out.append("]");
            },
            EventLogVariant::NftTransfer(v) => {
                out.append("\"event\":\"nft_transfer\",\"data\":[");
                let ghost start = out@;
                let ghost f = |t: NftTransferLog| transfer_json(t);
                let mut i: usize = 0;
                while i < v.len()
                    invariant
                        i <= v@.len(),
                        out@ == start + json_list(v@.take(i as int).map_values(f)),
                        f == (|t: NftTransferLog| transfer_json(t)),
                    decreases v@.len() - i,
                {
                    proof {
                        assert(v@.take(i as int + 1).map_values(f) == v@.take(i as int).map_values(f).push(f(v@[i as int])));
                        lemma_list_push(v@.take(i as int).map_values(f), f(v@[i as int]));
                    }
                    if i > 0 {
                        out.append(",");
                    }
                    v[i].append_json(out);
                    i = i + 1;
                }
                proof {
                    assert(v@.take(i as int) == v@);
                }
                out.append("]");
            },
        }
    }
}

impl EventLog {
    /// The log line for the event: `EVENT_JSON:` and the event as JSON, with
    /// the members in the order standard, version, event, data.
    pub fn to_string(&self) -> (r: String)
        ensures
            r@ == event_line(*self),
    {
        let mut out = String::from_str("EVENT_JSON:{\"standard\":");
        let q = quote_json(self.standard.as_str());
        out.append(q.as_str());
        out.append(",\"version\":");
        let q = quote_json(self.version.as_str());
        out.append(q.as_str());
        out.append(",");
        self.event.append_json(&mut out);
        out.append("}");
        out
    }
}

} // verus!
