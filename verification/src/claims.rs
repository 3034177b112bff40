//! The claims of a WebSocket token and their JSON text.

use vstd::prelude::*;

use crate::room::RoomId;
use crate::strmap::StrMap;
use crate::text::{copy_strings, decimal, hex_digits, json_string, push_json_string, write_decimal};
use crate::ConnectionId;

verus! {

/// The last `width` hexadecimal digits of `n`, lower case, most significant first.
pub open spec fn hex_fixed(n: nat, width: nat) -> Seq<char>
    decreases width,
{
    if width == 0 {
        Seq::empty()
    } else {
        hex_fixed(n / 16, (width - 1) as nat) + seq![hex_digits()[(n % 16) as int]]
    }
}

/// The hyphenated text of the UUID whose 128-bit value is `id`: its 32
/// lower-case hexadecimal digits, most significant first, in groups of
/// 8, 4, 4, 4 and 12 joined by hyphens.
pub open spec fn uuid_hyphenated(id: u128) -> Seq<char> {
    let h = hex_fixed(id as nat, 32);
    h.subrange(0, 8) + seq!['-'] + h.subrange(8, 12) + seq!['-'] + h.subrange(12, 16) + seq!['-']
        + h.subrange(16, 20) + seq!['-'] + h.subrange(20, 32)
}

/// Writes the UUID whose 128-bit value is `id` through `uuid::Uuid::from_u128`
/// (the value's big-endian bytes) and its `Display` impl, which writes the
/// lower-case hyphenated form. The contract claims that the text is that form.
#[verifier::external_body]
fn uuid_text(id: u128) -> (r: String)
    ensures
        r@ == uuid_hyphenated(id),
{
    uuid::Uuid::from_u128(id).to_string()
}

/// The plain model of the claims of a token.
pub struct WsClaimsView {
    pub connection_id: Option<ConnectionId>,
    pub sub: Seq<char>,
    pub rooms: Seq<Seq<char>>,
    pub metadata: Seq<(Seq<char>, Seq<char>)>,
    pub iat: u64,
    pub exp: u64,
}

/// JWT claims for WebSocket authentication.
///
/// `metadata` maps custom claim names to the JSON text of their values; its
/// entries are written into the claims object beside the named claims.
#[derive(Debug)]
pub struct WsClaims {
    /// Connection ID (issued after connection)
    pub connection_id: Option<ConnectionId>,
    /// Subject (user identifier)
    pub sub: String,
    /// Custom rooms the user can join
    pub rooms: Vec<RoomId>,
    /// Custom metadata: claim name to the JSON text of its value
    pub metadata: StrMap,
    /// Issued at
    pub iat: u64,
    /// Expiration
    pub exp: u64,
}

impl View for WsClaims {
    type V = WsClaimsView;

    open spec fn view(&self) -> WsClaimsView {
        WsClaimsView {
            connection_id: self.connection_id,
            sub: self.sub@,
            rooms: self.rooms@.map_values(|r: String| r@),
            metadata: self.metadata.entry_views(),
            iat: self.iat,
            exp: self.exp,
        }
    }
}

/// The JSON array of the strings `s`, without its brackets.
pub open spec fn json_string_items(s: Seq<Seq<char>>) -> Seq<char>
    decreases s.len(),
{
    if s.len() == 0 {
        Seq::empty()
    } else if s.len() == 1 {
        json_string(s[0])
    } else {
        json_string_items(s.drop_last()) + ","@ + json_string(s.last())
    }
}

/// The members `"name":value` of the entries `m`, each led by a comma.
pub open spec fn json_members(m: Seq<(Seq<char>, Seq<char>)>) -> Seq<char>
    decreases m.len(),
{
    if m.len() == 0 {
        Seq::empty()
    } else {
        json_members(m.drop_last()) + ","@ + json_string(m.last().0) + ":"@ + m.last().1
    }
}

/// The text of the connection id claim: `null`, or the UUID as a JSON string.
pub open spec fn json_connection_id(c: Option<ConnectionId>) -> Seq<char> {
    match c {
        None => "null"@,
        Some(id) => json_string(uuid_hyphenated(id)),
    }
}

/// The JSON object of the claims: the connection id, the subject and the rooms,
/// then the metadata entries in their order, then the issue and expiry times.
pub open spec fn claims_json(c: WsClaimsView) -> Seq<char> {
    "{\"connection_id\":"@ + json_connection_id(c.connection_id) + ",\"sub\":"@ + json_string(c.sub)
        + ",\"rooms\":["@ + json_string_items(c.rooms) + "]"@ + json_members(c.metadata)
        + ",\"iat\":"@ + decimal(c.iat as nat) + ",\"exp\":"@ + decimal(c.exp as nat) + "}"@
}

/// The claims text is an object: it starts with `{` and ends with `}`.
pub proof fn lemma_claims_json_braced(c: WsClaimsView)
    ensures
        claims_json(c).len() > 0,
        claims_json(c)[0] == '{',
        claims_json(c).last() == '}',
{
    reveal_strlit("{\"connection_id\":");
    reveal_strlit("}");
    let head = "{\"connection_id\":"@;
    let t = claims_json(c);
    assert(head[0] == '{');
    assert(t.last() == '}');
    assert(t[0] == head[0]);
}

impl Clone for WsClaims {
    /// A copy of the claims, field by field.
    fn clone(&self) -> (r: Self)
        ensures
            r@ == self@,
            r.metadata.wf() == self.metadata.wf(),
    {
        WsClaims {
            connection_id: self.connection_id,
            sub: self.sub.clone(),
            rooms: copy_strings(&self.rooms),
            metadata: self.metadata.clone(),
            iat: self.iat,
            exp: self.exp,
        }
    }
}

impl WsClaims {
    /// The claims as a JSON object.
    pub fn to_json(&self) -> (r: String)
        requires
            self.metadata.wf(),
        ensures
            r@ == claims_json(self@),
    {
        let mut out = String::new();
        out.append("{\"connection_id\":");
        match self.connection_id {
            None => out.append("null"),
            Some(id) => {
                let t = uuid_text(id);
                push_json_string(&mut out, t.as_str());
            },
        }
        out.append(",\"sub\":");
        push_json_string(&mut out, self.sub.as_str());
        out.append(",\"rooms\":[");
        let ghost before_rooms = out@;
        let ghost rooms = self.rooms@.map_values(|r: String| r@);
        let n = self.rooms.len();
        let mut i: usize = 0;
        while i < n
            invariant
                n == self.rooms@.len(),
                rooms == self.rooms@.map_values(|r: String| r@),
                i <= n,
                out@ == before_rooms + json_string_items(rooms.subrange(0, i as int)),
            decreases n - i,
        {
            if i > 0 {
                out.append(",");
            }
            push_json_string(&mut out, self.rooms[i].as_str());
            proof {
                let next = rooms.subrange(0, i + 1);
                assert(next.drop_last() =~= rooms.subrange(0, i as int));
                if i == 0 {
                    assert(json_string_items(rooms.subrange(0, 0)) =~= Seq::<char>::empty());
                }
            }
            i = i + 1;
        }
        assert(rooms.subrange(0, n as int) =~= rooms);
        out.append("]");
        let entries = self.metadata.to_vec();
        let ghost before_meta = out@;
        let ghost meta = self.metadata.entry_views();
        let m = entries.len();
        let mut j: usize = 0;
        while j < m
            invariant
                m == entries@.len(),
                meta == entries@.map_values(|e: (String, String)| (e.0@, e.1@)),
                j <= m,
                out@ == before_meta + json_members(meta.subrange(0, j as int)),
            decreases m - j,
        {
            out.append(",");
            push_json_string(&mut out, entries[j].0.as_str());
            out.append(":");
            out.append(entries[j].1.as_str());
            proof {
                let next = meta.subrange(0, j + 1);
                assert(next.drop_last() =~= meta.subrange(0, j as int));
            }
            j = j + 1;
        }
        assert(meta.subrange(0, m as int) =~= meta);
        out.append(",\"iat\":");
        let iat = write_decimal(self.iat);
        out.append(iat.as_str());
        out.append(",\"exp\":");
        let exp = write_decimal(self.exp);
        out.append(exp.as_str());
        out.append("}");
        assert(out@ =~= claims_json(self@));
        out
    }
}

} // verus!
