//! Turning one request into its reply against the store.

use vstd::prelude::*;
use crate::database::{
    Database, Pick, after_set, any_picked, get_step, lists, text_of,
};
use crate::response::{Response, parse, parses_to, split_spaces};
use crate::text::same_text;

verus! {

/// The most bytes read from a connection for its one request.
pub const READ_LIMIT: usize = 1024;

/// The lines `key = value`, one for each pair of `v`, in its order.
pub open spec fn render(v: Seq<(String, String)>) -> Seq<char>
    decreases v.len(),
{
    if v.len() == 0 {
        Seq::empty()
    } else {
        render(v.drop_last()) + v.last().0@ + " = "@ + v.last().1@ + "\n"@
    }
}

/// The reply to a listing: its lines, or `empty` when nothing is taken.
pub open spec fn listing_reply(
    before: Map<Seq<char>, crate::database::Slot>,
    pick: Pick,
    pattern: Seq<char>,
    empty: Seq<char>,
    out: Seq<char>,
) -> bool {
    if !any_picked(before, pick, pattern) {
        out == empty
    } else {
        exists|l: Seq<(String, String)>| lists(l, before, pick, pattern) && out == render(l)
    }
}

/// Whether carrying out command `c` at time `now` on a store holding
/// `before` may reply `out` and leave `after`.
pub open spec fn replies(
    c: Response,
    before: Map<Seq<char>, crate::database::Slot>,
    now: u128,
    out: Seq<char>,
    after: Map<Seq<char>, crate::database::Slot>,
) -> bool {
    match c {
        Response::Error(e) => out == e@ + "\n"@ && after == before,
        Response::Command(m, k, v, ttl) => if m@ == "SET"@ {
            match v {
                Some(value) => after == after_set(before, k@, value@, ttl, now) && out == "OK\n"@,
                None => after == before && out == Seq::<char>::empty(),
            }
        } else if m@ == "GET"@ && k@ == "*"@ {
            after == before && listing_reply(before, Pick::Every, Seq::empty(), "none\n"@, out)
        } else if m@ == "GET"@ {
            exists|r: Option<Seq<char>>|
                get_step(before, k@, now, r, after) && out == match r {
                    Some(x) => x + "\n"@,
                    None => "Key does not exist\n"@,
                }
        } else if m@ == "DEL"@ {
            after == before.remove(k@) && out == "OK\n"@
        } else if m@ == "GETSW"@ {
            after == before && listing_reply(
                before,
                Pick::Prefix,
                k@,
                "No key starts with that pattern\n"@,
                out,
            )
        } else if m@ == "GETEW"@ {
            after == before && listing_reply(
                before,
                Pick::Suffix,
                k@,
                "No key ends with that pattern\n"@,
                out,
            )
        } else {
            after == before && out == Seq::<char>::empty()
        },
    }
}

/// Writes the pairs of `v` as lines `key = value`.
pub fn render_pairs(v: &Vec<(String, String)>) -> (r: String)
    ensures
        r@ == render(v@),
{
    let mut out = String::new();
    let mut i: usize = 0;
    while i < v.len()
        invariant
            i <= v@.len(),
            out@ == render(v@.subrange(0, i as int)),
        decreases v@.len() - i,
    {
        assert(v@.subrange(0, i + 1 as int).drop_last() =~= v@.subrange(0, i as int));
        out.append(v[i].0.as_str());
        out.append(" = ");
        out.append(v[i].1.as_str());
        out.append("\n");
        i += 1;
    }
    assert(v@.subrange(0, v@.len() as int) =~= v@);
    out
}

fn listing(found: Option<Vec<(String, String)>>, empty: &str) -> (r: String)
    ensures
        found matches Some(v) ==> r@ == render(v@),
        found is None ==> r@ == empty@,
{
    match found {
        Some(v) => render_pairs(&v),
        None => String::from_str(empty),
    }
}

/// Carries out command `c` on `db` at time `now` and returns the reply.
pub fn dispatch(db: &mut Database, c: Response, now: u128) -> (out: String)
    requires
        old(db).wf(),
    ensures
        final(db).wf(),
        replies(c, old(db)@, now, out@, final(db)@),
{
    match c {
        Response::Error(e) => {
            let mut out = e;
            out.append("\n");
            out
        },
        Response::Command(m, k, v, ttl) => {
            if same_text(m.as_str(), "SET") {
                match v {
                    Some(value) => {
                        db.set_at(k, value, ttl, now);
                        String::from_str("OK\n")
                    },
                    None => String::new(),
                }
            } else if same_text(m.as_str(), "GET") && same_text(k.as_str(), "*") {
                listing(db.get_all(), "none\n")
            } else if same_text(m.as_str(), "GET") {
                let r = db.get_at(k.as_str(), now);
                assert(get_step(old(db)@, k@, now, text_of(r), db@));
                match r {
                    Some(x) => {
                        let mut out = x;
                        out.append("\n");
                        out
                    },
                    None => String::from_str("Key does not exist\n"),
                }
            } else if same_text(m.as_str(), "DEL") {
                db.delete(k.as_str());
                String::from_str("OK\n")
            } else if same_text(m.as_str(), "GETSW") {
                listing(db.get_sw(k.as_str()), "No key starts with that pattern\n")
            } else if same_text(m.as_str(), "GETEW") {
                listing(db.get_ew(k.as_str()), "No key ends with that pattern\n")
            } else {
                String::new()
            }
        },
    }
}

/// Reads `line` as a command and carries it out at time `now`.
pub fn respond_at(db: &mut Database, line: &str, now: u128) -> (out: String)
    requires
        old(db).wf(),
    ensures
        final(db).wf(),
        exists|c: Response| parses_to(line@, c) && replies(c, old(db)@, now, out@, final(db)@),
{
    let c = parse(line);
    let ghost gc = c;
    let out = dispatch(db, c, now);
    assert(parses_to(line@, gc) && replies(gc, old(db)@, now, out@, db@));
    out
}

/// Reads `line` as a command and carries it out, reading the clock once.
pub fn respond(db: &mut Database, line: &str) -> (out: String)
    requires
        old(db).wf(),
    ensures
        final(db).wf(),
        exists|c: Response, now: u128|
            parses_to(line@, c) && replies(c, old(db)@, now, out@, final(db)@),
{
    let now = db.now();
    respond_at(db, line, now)
}

/// The text that `String::from_utf8_lossy` makes of bytes `b`.
pub uninterp spec fn lossy_text(b: Seq<u8>) -> Seq<char>;

/// The text that `str::trim` leaves of `s`.
pub uninterp spec fn trimmed(s: Seq<char>) -> Seq<char>;

/// Relies on String::from_utf8_lossy: the bytes decoded as UTF-8, each
/// invalid sequence replaced by U+FFFD; no bytes give no text.
#[verifier::external_body]
fn decode_lossy(b: &[u8]) -> (r: String)
    ensures
        r@ == lossy_text(b@),
        b@.len() == 0 ==> r@.len() == 0,
{
    String::from_utf8_lossy(b).into_owned()
}

/// Relies on str::trim: `s` without leading and trailing whitespace; an
/// empty text stays empty.
#[verifier::external_body]
fn trim_text(s: &str) -> (r: String)
    ensures
        r@ == trimmed(s@),
        s@.len() == 0 ==> r@.len() == 0,
{
    s.trim().to_string()
}

/// The reply to the bytes of one request: they are decoded, trimmed, read
/// as a command and carried out. When no bytes came, the reply to the empty
/// request follows the notice `No data provided`.
pub fn handle_request(db: &mut Database, data: &[u8]) -> (out: String)
    requires
        old(db).wf(),
    ensures
        final(db).wf(),
        exists|c: Response, now: u128, reply: Seq<char>|
            parses_to(trimmed(lossy_text(data@)), c) && replies(c, old(db)@, now, reply, final(db)@)
                && out@ == if data@.len() == 0 {
                "No data provided"@ + reply
            } else {
                reply
            },
        data@.len() == 0 ==> out@ == "No data provided"@ + "missing key\n"@,
{
    let text = decode_lossy(data);
    let line = trim_text(text.as_str());
    let reply = respond(db, line.as_str());
    if data.len() == 0 {
        proof {
            assert(line@ =~= Seq::<char>::empty());
            assert(split_spaces(line@).len() == 1);
            reveal_strlit("missing key");
            reveal_strlit("\n");
            reveal_strlit("missing key\n");
            assert("missing key"@ + "\n"@ =~= "missing key\n"@);
        }
        let mut out = String::from_str("No data provided");
        out.append(reply.as_str());
        out
    } else {
        reply
    }
}

} // verus!
