//! Parsing one request line into a command.

use vstd::prelude::*;
use crate::text::same_text;

verus! {

/// A parsed request: `Command(method, key, value, ttl)`, or `Error(message)`.
/// `value` is present only for `SET`; `ttl` only for a `SET` with a
/// non-zero time-to-live.
#[derive(Debug)]
pub enum Response {
    Command(String, String, Option<String>, Option<u64>),
    Error(String),
}

/// The tokens of `s` between single spaces, empty ones included: the
/// text splits into one more token than it holds spaces.
pub open spec fn split_spaces(s: Seq<char>) -> Seq<Seq<char>>
    decreases s.len(),
{
    if s.len() == 0 {
        seq![Seq::empty()]
    } else {
        let t = split_spaces(s.drop_last());
        if s.last() == ' ' {
            t.push(Seq::empty())
        } else {
            t.update(t.len() - 1, t.last().push(s.last()))
        }
    }
}

/// `s` without one leading `+`, if it has one.
pub open spec fn unsigned_body(s: Seq<char>) -> Seq<char> {
    if s.len() > 0 && s[0] == '+' {
        s.drop_first()
    } else {
        s
    }
}

/// Whether every character of `s` is an ASCII decimal digit.
pub open spec fn all_digits(s: Seq<char>) -> bool {
    forall|i: int| 0 <= i < s.len() ==> '0' <= #[trigger] s[i] && s[i] <= '9'
}

/// The number that the decimal digits `s` write.
pub open spec fn digits_value(s: Seq<char>) -> int
    decreases s.len(),
{
    if s.len() == 0 {
        0
    } else {
        digits_value(s.drop_last()) * 10 + (s.last() as int - '0' as int)
    }
}

/// Whether `s` writes a `u64`: an optional `+`, then at least one decimal
/// digit, and a value that fits.
pub open spec fn u64_text_ok(s: Seq<char>) -> bool {
    let b = unsigned_body(s);
    b.len() > 0 && all_digits(b) && digits_value(b) <= u64::MAX
}

/// The message of the error that reading `s` as a `u64` gives.
pub uninterp spec fn int_error_text(s: Seq<char>) -> Seq<char>;

/// Relies on `<u64 as FromStr>::from_str` (an optional `+`, then decimal
/// digits, within range) and on the `Display` text of its `ParseIntError`.
#[verifier::external_body]
fn parse_u64(s: &str) -> (r: Result<u64, String>)
    ensures
        r is Ok <==> u64_text_ok(s@),
        r matches Ok(n) ==> n == digits_value(unsigned_body(s@)),
        r matches Err(m) ==> m@ == int_error_text(s@),
{
    match s.parse::<u64>() {
        Ok(n) => Ok(n),
        Err(e) => Err(e.to_string()),
    }
}

/// Whether `m` is one of the methods that take a key alone.
pub open spec fn key_method(m: Seq<char>) -> bool {
    m == "GET"@ || m == "DEL"@ || m == "GETSW"@ || m == "GETEW"@
}

/// The time-to-live that a `SET` with tokens `t` asks for: none when it
/// gives none, and none when it gives zero.
pub open spec fn ttl_of(t: Seq<Seq<char>>) -> Option<u64> {
    if t.len() >= 4 && digits_value(unsigned_body(t[3])) > 0 {
        Some(digits_value(unsigned_body(t[3])) as u64)
    } else {
        None
    }
}

/// Whether `r` is the error with message `msg`.
pub open spec fn is_error(r: Response, msg: Seq<char>) -> bool {
    match r {
        Response::Error(m) => m@ == msg,
        _ => false,
    }
}

/// Whether `r` is the command `method key [value] [ttl]`.
pub open spec fn is_command(
    r: Response,
    method: Seq<char>,
    key: Seq<char>,
    value: Option<Seq<char>>,
    ttl: Option<u64>,
) -> bool {
    match r {
        Response::Command(m, k, v, t) => m@ == method && k@ == key && t == ttl && match v {
            Some(x) => value == Some(x@),
            None => value is None,
        },
        _ => false,
    }
}

/// Whether `r` is the command, or the error, that `line` reads as.
pub open spec fn parses_to(line: Seq<char>, r: Response) -> bool {
    let t = split_spaces(line);
    if t.len() < 2 {
        is_error(r, "missing key"@)
    } else if t[0] == "SET"@ {
        if t.len() < 3 {
            is_error(r, "missing value"@)
        } else if t.len() >= 4 && !u64_text_ok(t[3]) {
            is_error(r, "could not parse TTL to uint: "@ + int_error_text(t[3]))
        } else {
            is_command(r, t[0], t[1], Some(t[2]), ttl_of(t))
        }
    } else if key_method(t[0]) {
        is_command(r, t[0], t[1], None, None)
    } else {
        is_error(r, "unknown method `"@ + t[0] + "`"@)
    }
}

/// Every text splits into at least one token.
pub proof fn lemma_split_nonempty(s: Seq<char>)
    ensures
        split_spaces(s).len() >= 1,
    decreases s.len(),
{
    if s.len() > 0 {
        lemma_split_nonempty(s.drop_last());
    }
}

/// The characters of each string.
pub open spec fn texts(v: Seq<String>) -> Seq<Seq<char>> {
    v.map_values(|t: String| t@)
}

/// Splits `s` at each single space.
pub fn split_on_spaces(s: &str) -> (r: Vec<String>)
    ensures
        texts(r@) == split_spaces(s@),
{
    let n = s.unicode_len();
    let mut toks: Vec<String> = Vec::new();
    let mut start: usize = 0;
    let mut i: usize = 0;
    assert(s@.subrange(0, 0) =~= Seq::<char>::empty());
    assert(texts(toks@).push(s@.subrange(0, 0)) =~= seq![Seq::<char>::empty()]);
    while i < n
        invariant
            n == s@.len(),
            start <= i <= n,
            texts(toks@).push(s@.subrange(start as int, i as int)) == split_spaces(
                s@.subrange(0, i as int),
            ),
        decreases n - i,
    {
        let c = s.get_char(i);
        let ghost before = s@.subrange(0, i as int);
        assert(s@.subrange(0, i + 1 as int).drop_last() =~= before);
        proof {
            lemma_split_nonempty(before);
        }
        if c == ' ' {
            let piece = String::from_str(s.substring_char(start, i));
            toks.push(piece);
            assert(texts(toks@) =~= texts(toks@.drop_last()).push(piece@));
            start = i + 1;
            assert(s@.subrange(start as int, i + 1 as int) =~= Seq::<char>::empty());
        } else {
            assert(s@.subrange(start as int, i + 1 as int) =~= s@.subrange(start as int, i as int).push(c));
        }
        i += 1;
    }
    let last = String::from_str(s.substring_char(start, n));
    toks.push(last);
    assert(s@.subrange(0, n as int) =~= s@);
    assert(texts(toks@) =~= texts(toks@.drop_last()).push(last@));
    toks
}

/// Reads one request line, already trimmed, as a command.
pub fn parse(line: &str) -> (r: Response)
    ensures
        parses_to(line@, r),
{
    let toks = split_on_spaces(line);
    proof {
        lemma_split_nonempty(line@);
    }
    let ghost t = split_spaces(line@);
    assert(toks@.len() == t.len());
    if toks.len() < 2 {
        return Response::Error(String::from_str("missing key"));
    }
    assert(toks@[0]@ == t[0] && toks@[1]@ == t[1]);
    let method = toks[0].as_str();
    if same_text(method, "SET") {
        if toks.len() < 3 {
            return Response::Error(String::from_str("missing value"));
        }
        assert(toks@[2]@ == t[2]);
        let mut ttl: Option<u64> = None;
        if toks.len() >= 4 {
            assert(toks@[3]@ == t[3]);
            match parse_u64(toks[3].as_str()) {
                Ok(n) => {
                    if n > 0 {
                        ttl = Some(n);
                    }
                },
                Err(e) => {
                    let mut m = String::from_str("could not parse TTL to uint: ");
                    m.append(e.as_str());
                    return Response::Error(m);
                },
            }
        }
        return Response::Command(toks[0].clone(), toks[1].clone(), Some(toks[2].clone()), ttl);
    }
    if same_text(method, "GET") || same_text(method, "DEL") || same_text(method, "GETSW")
        || same_text(method, "GETEW") {
        return Response::Command(toks[0].clone(), toks[1].clone(), None, None);
    }
    let mut m = String::from_str("unknown method `");
    m.append(method);
    m.append("`");
    Response::Error(m)
}

impl From<String> for Response {
    /// Reads a request line, already trimmed, as a command; see `parse`.
    fn from(value: String) -> (r: Response)
        ensures
            parses_to(value@, r),
    {
        parse(value.as_str())
    }
}

/// Two strings with the same characters need not be one value here, so
/// `from` is not claimed to be a function of its argument; what it returns
/// is stated by `parses_to`.
impl vstd::std_specs::convert::FromSpecImpl<String> for Response {
    open spec fn obeys_from_spec() -> bool {
        false
    }

    open spec fn from_spec(v: String) -> Response {
        choose|r: Response| parses_to(v@, r)
    }
}

} // verus!
