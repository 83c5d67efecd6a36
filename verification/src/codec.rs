//! Envelope codec: the wire format of the chat protocol.
//!
//! A frame is a text rendering of a `WebSocketMessage`: an object with the
//! keys `messageType`, `dataArray` and `data`, in that order, for example
//! `{"messageType":"users","dataArray":["alice"],"data":null}`. An inbound
//! `message` frame carries in `data` a nested record with the keys `from` and
//! `message`, decoded separately by [`decode_message_data`].
//!
//! The grammar is deliberately canonical, stricter than a general JSON
//! reader: the keys must come in the fixed order above, the unused ones
//! present as `null`; the decoder accepts whitespace between tokens and the
//! eight simple string escapes (`\" \\ \/ \n \t \r \b \f`), but not
//! `\uXXXX`; everything else is a decode error. A frame that reorders or
//! omits keys is dropped, which the dispatcher survives. The encoder's
//! output is exactly the canonical shape, so both ends of this protocol
//! understand each other bit-for-bit, and [`lemma_encode_decode_round_trip`]
//! proves it; a peer must send the same canonical shape.
//!
//! One more edge of the same contract: control characters other than the
//! escaped five pass through strings raw, on both sides. The round trip
//! holds, but a reader insisting on strict JSON would reject such a frame,
//! so payloads are best kept to printable text.

use vstd::prelude::*;

verus! {

/// The discriminant of a wire envelope, rendered lowercase on the wire.
#[derive(Clone, Copy, PartialEq, Eq, Structural, Debug)]
pub enum MsgTypes {
    Users,
    Register,
    Message,
}

/// A wire envelope. `data_array` is used only by `users` frames, `data` by
/// `register` and `message` frames; an absent field is rendered as `null`.
#[derive(Debug)]
pub struct WebSocketMessage {
    pub message_type: MsgTypes,
    pub data_array: Option<Vec<String>>,
    pub data: Option<String>,
}

/// The mathematical value of a wire envelope.
#[verifier::ext_equal]
pub struct WsView {
    pub message_type: MsgTypes,
    pub data_array: Option<Seq<Seq<char>>>,
    pub data: Option<Seq<char>>,
}

impl View for WebSocketMessage {
    type V = WsView;

    open spec fn view(&self) -> WsView {
        WsView {
            message_type: self.message_type,
            data_array: match self.data_array {
                Some(v) => Some(seq_deep_view(v@)),
                None => None,
            },
            data: match self.data {
                Some(s) => Some(s@),
                None => None,
            },
        }
    }
}

/// The nested record carried by an inbound `message` frame.
#[derive(Debug)]
pub struct MessageData {
    pub from: String,
    pub message: String,
}

/// The mathematical value of a nested message record.
#[verifier::ext_equal]
pub struct MessageDataView {
    pub from: Seq<char>,
    pub message: Seq<char>,
}

impl View for MessageData {
    type V = MessageDataView;

    open spec fn view(&self) -> MessageDataView {
        MessageDataView { from: self.from@, message: self.message@ }
    }
}

/// Why a frame was rejected: not well-formed under the wire grammar, or
/// well-formed but with an unknown discriminant.
#[derive(Clone, Copy, PartialEq, Eq, Structural, Debug)]
pub enum DecodeError {
    Syntax,
    UnknownTag,
}

/// The whitespace the grammar skips between tokens.
pub open spec fn is_ws(c: char) -> bool {
    c == ' ' || c == '\t' || c == '\n' || c == '\r'
}

/// First position at or after `i` holding a non-whitespace character.
pub open spec fn spec_skip_ws(s: Seq<char>, i: int) -> int
    decreases s.len() - i,
{
    if 0 <= i < s.len() && is_ws(s[i]) {
        spec_skip_ws(s, i + 1)
    } else {
        i
    }
}

/// A parsed string together with the position just after its closing quote.
#[verifier::ext_equal]
pub struct TextRes {
    pub text: Seq<char>,
    pub next: int,
}

/// The characters that may follow a backslash in a string.
pub open spec fn is_escape_code(c: char) -> bool {
    c == '"' || c == '\\' || c == '/' || c == 'n' || c == 't' || c == 'r' || c == 'b' || c == 'f'
}

/// The character an escape code stands for.
pub open spec fn unescape(c: char) -> char {
    if c == 'n' {
        '\n'
    } else if c == 't' {
        '\t'
    } else if c == 'r' {
        '\r'
    } else if c == 'b' {
        '\u{0008}'
    } else if c == 'f' {
        '\u{000C}'
    } else {
        c
    }
}

/// Body of a quoted string from position `i` (just after the opening quote):
/// characters and escapes up to the closing quote, appended to `acc`.
pub open spec fn spec_text_body(s: Seq<char>, i: int, acc: Seq<char>) -> Option<TextRes>
    decreases s.len() - i,
{
    if i < 0 || i >= s.len() {
        None
    } else if s[i] == '"' {
        Some(TextRes { text: acc, next: i + 1 })
    } else if s[i] == '\\' {
        if i + 1 < s.len() && is_escape_code(s[i + 1]) {
            spec_text_body(s, i + 2, acc.push(unescape(s[i + 1])))
        } else {
            None
        }
    } else {
        spec_text_body(s, i + 1, acc.push(s[i]))
    }
}

/// A quoted string at position `i`.
pub open spec fn spec_text(s: Seq<char>, i: int) -> Option<TextRes> {
    if 0 <= i < s.len() && s[i] == '"' {
        spec_text_body(s, i + 1, Seq::empty())
    } else {
        None
    }
}

/// Relies on `String::push`: appends one character at the end.
#[verifier::external_body]
fn push_char(s: &mut String, c: char)
    ensures
        final(s)@ == old(s)@.push(c),
{
    s.push(c);
}

/// The characters of `s`, one vector element per `char`.
fn str_chars(s: &str) -> (r: Vec<char>)
    ensures
        r@ == s@,
{
    let n = s.unicode_len();
    let mut v: Vec<char> = Vec::new();
    let mut i: usize = 0;
    while i < n
        invariant
            n == s@.len(),
            i <= n,
            v@ == s@.subrange(0, i as int),
        decreases n - i,
    {
        v.push(s.get_char(i));
        i = i + 1;
        proof {
            assert(v@ =~= s@.subrange(0, i as int));
        }
    }
    proof {
        assert(v@ =~= s@);
    }
    v
}

fn is_ws_char(c: char) -> (r: bool)
    ensures
        r == is_ws(c),
{
    c == ' ' || c == '\t' || c == '\n' || c == '\r'
}

fn skip_ws(v: &Vec<char>, i: usize) -> (r: usize)
    ensures
        r as int == spec_skip_ws(v@, i as int),
        i <= r <= v@.len() || r == i,
    decreases v@.len() - i,
{
    if i < v.len() && is_ws_char(v[i]) {
        skip_ws(v, i + 1)
    } else {
        i
    }
}

fn is_escape_code_char(c: char) -> (r: bool)
    ensures
        r == is_escape_code(c),
{
    c == '"' || c == '\\' || c == '/' || c == 'n' || c == 't' || c == 'r' || c == 'b' || c == 'f'
}

fn unescape_char(c: char) -> (r: char)
    ensures
        r == unescape(c),
{
    if c == 'n' {
        '\n'
    } else if c == 't' {
        '\t'
    } else if c == 'r' {
        '\r'
    } else if c == 'b' {
        '\u{0008}'
    } else if c == 'f' {
        '\u{000C}'
    } else {
        c
    }
}

fn text_body(v: &Vec<char>, i: usize, acc: String) -> (r: Option<(String, usize)>)
    ensures
        (match r {
            None => spec_text_body(v@, i as int, acc@) is None,
            Some(p) => spec_text_body(v@, i as int, acc@) == Some(
                TextRes { text: p.0@, next: p.1 as int },
            ) && p.1 <= v@.len(),
        }),
    decreases v@.len() - i,
{
    if i >= v.len() {
        return None;
    }
    let c = v[i];
    if c == '"' {
        Some((acc, i + 1))
    } else if c == '\\' {
        if i + 1 < v.len() && is_escape_code_char(v[i + 1]) {
            let e = unescape_char(v[i + 1]);
            let mut acc2 = acc;
            push_char(&mut acc2, e);
            text_body(v, i + 2, acc2)
        } else {
            None
        }
    } else {
        let mut acc2 = acc;
        push_char(&mut acc2, c);
        text_body(v, i + 1, acc2)
    }
}

/// Position just after the literal `null` at `i`, if it stands there.
pub open spec fn spec_null(s: Seq<char>, i: int) -> Option<int> {
    if 0 <= i && i + 4 <= s.len() && s[i] == 'n' && s[i + 1] == 'u' && s[i + 2] == 'l' && s[i + 3]
        == 'l' {
        Some(i + 4)
    } else {
        None
    }
}

/// Position just after the character `c` at `i`, if it stands there.
pub open spec fn spec_expect(s: Seq<char>, i: int, c: char) -> Option<int> {
    if 0 <= i < s.len() && s[i] == c {
        Some(i + 1)
    } else {
        None
    }
}

/// A parsed array of strings and the position just after its closing bracket.
#[verifier::ext_equal]
pub struct ItemsRes {
    pub items: Seq<Seq<char>>,
    pub next: int,
}

/// Continuation of an array from position `i` (just after an element):
/// whitespace, then `]` or a comma and a further string element.
pub open spec fn spec_items_rest(s: Seq<char>, i: int, acc: Seq<Seq<char>>) -> Option<ItemsRes>
    decreases s.len() - i,
{
    let j = spec_skip_ws(s, i);
    if !(0 <= j < s.len()) {
        None
    } else if s[j] == ']' {
        Some(ItemsRes { items: acc, next: j + 1 })
    } else if s[j] == ',' {
        let k = spec_skip_ws(s, j + 1);
        match spec_text(s, k) {
            // a parsed element always ends past `i` and inside `s`; the
            // bound check keeps the recursion well-founded
            Some(tr) => if i < tr.next <= s.len() {
                spec_items_rest(s, tr.next, acc.push(tr.text))
            } else {
                None
            },
            None => None,
        }
    } else {
        None
    }
}

/// An array of strings at position `i`.
pub open spec fn spec_items(s: Seq<char>, i: int) -> Option<ItemsRes> {
    match spec_expect(s, i, '[') {
        Some(j0) => {
            let j = spec_skip_ws(s, j0);
            if 0 <= j < s.len() && s[j] == ']' {
                Some(ItemsRes { items: Seq::empty(), next: j + 1 })
            } else {
                match spec_text(s, j) {
                    Some(tr) => spec_items_rest(s, tr.next, seq![tr.text]),
                    None => None,
                }
            }
        },
        None => None,
    }
}

fn expect(v: &Vec<char>, i: usize, c: char) -> (r: Option<usize>)
    ensures
        (match r {
            None => spec_expect(v@, i as int, c) is None,
            Some(j) => spec_expect(v@, i as int, c) == Some(j as int) && j <= v@.len(),
        }),
{
    if i < v.len() && v[i] == c {
        Some(i + 1)
    } else {
        None
    }
}

fn null_lit(v: &Vec<char>, i: usize) -> (r: Option<usize>)
    ensures
        (match r {
            None => spec_null(v@, i as int) is None,
            Some(j) => spec_null(v@, i as int) == Some(j as int) && j <= v@.len(),
        }),
{
    if i < v.len() && v.len() - i >= 4 && v[i] == 'n' && v[i + 1] == 'u' && v[i + 2] == 'l' && v[i
        + 3] == 'l' {
        Some(i + 4)
    } else {
        None
    }
}

/// The element-wise view of a sequence of strings.
pub open spec fn seq_deep_view(v: Seq<String>) -> Seq<Seq<char>> {
    Seq::new(v.len(), |i: int| v[i]@)
}

proof fn lemma_deep_view_push(v: Vec<String>, s: String)
    ensures
        seq_deep_view(v@.push(s)) =~= seq_deep_view(v@).push(s@),
{
}

fn items_rest(v: &Vec<char>, i: usize, acc: Vec<String>) -> (r: Option<(Vec<String>, usize)>)
    ensures
        (match r {
            None => spec_items_rest(v@, i as int, seq_deep_view(acc@)) is None,
            Some(p) => spec_items_rest(v@, i as int, seq_deep_view(acc@)) == Some(
                ItemsRes { items: seq_deep_view(p.0@), next: p.1 as int },
            ) && p.1 <= v@.len(),
        }),
    decreases v@.len() - i,
{
    let j = skip_ws(v, i);
    if !(j < v.len()) {
        return None;
    }
    if v[j] == ']' {
        Some((acc, j + 1))
    } else if v[j] == ',' {
        let k = skip_ws(v, j + 1);
        match text(v, k) {
            Some(p) => {
                let (t, m) = p;
                if i < m && m <= v.len() {
                    let mut acc2 = acc;
                    acc2.push(t);
                    proof {
                        lemma_deep_view_push(acc, t);
                    }
                    items_rest(v, m, acc2)
                } else {
                    None
                }
            },
            None => None,
        }
    } else {
        None
    }
}

fn items(v: &Vec<char>, i: usize) -> (r: Option<(Vec<String>, usize)>)
    ensures
        (match r {
            None => spec_items(v@, i as int) is None,
            Some(p) => spec_items(v@, i as int) == Some(
                ItemsRes { items: seq_deep_view(p.0@), next: p.1 as int },
            ) && p.1 <= v@.len(),
        }),
{
    match expect(v, i, '[') {
        Some(j0) => {
            let j = skip_ws(v, j0);
            if j < v.len() && v[j] == ']' {
                let empty: Vec<String> = Vec::new();
                proof {
                    assert(seq_deep_view(empty@) =~= Seq::<Seq<char>>::empty());
                }
                Some((empty, j + 1))
            } else {
                match text(v, j) {
                    Some(p) => {
                        let (t, m) = p;
                        let mut first: Vec<String> = Vec::new();
                        first.push(t);
                        proof {
                            assert(seq_deep_view(first@) =~= seq![first@[0]@]);
                        }
                        items_rest(v, m, first)
                    },
                    None => None,
                }
            }
        },
        None => None,
    }
}

fn text(v: &Vec<char>, i: usize) -> (r: Option<(String, usize)>)
    ensures
        (match r {
            None => spec_text(v@, i as int) is None,
            Some(p) => spec_text(v@, i as int) == Some(
                TextRes { text: p.0@, next: p.1 as int },
            ) && p.1 <= v@.len(),
        }),
{
    if i < v.len() && v[i] == '"' {
        text_body(v, i + 1, String::new())
    } else {
        None
    }
}

/// A quoted string at `i` that must equal the key `k`.
pub open spec fn spec_key(s: Seq<char>, i: int, k: Seq<char>) -> Option<int> {
    match spec_text(s, i) {
        Some(tr) => if tr.text == k {
            Some(tr.next)
        } else {
            None
        },
        None => None,
    }
}

fn key_at(v: &Vec<char>, i: usize, k: &str) -> (r: Option<usize>)
    ensures
        (match r {
            None => spec_key(v@, i as int, k@) is None,
            Some(j) => spec_key(v@, i as int, k@) == Some(j as int) && j <= v@.len(),
        }),
{
    match text(v, i) {
        Some(p) => {
            let (t, m) = p;
            if t == String::from_str(k) {
                Some(m)
            } else {
                None
            }
        },
        None => None,
    }
}

/// The envelope discriminant a tag string stands for.
pub open spec fn tag_of(t: Seq<char>) -> Option<MsgTypes> {
    if t == "users"@ {
        Some(MsgTypes::Users)
    } else if t == "register"@ {
        Some(MsgTypes::Register)
    } else if t == "message"@ {
        Some(MsgTypes::Message)
    } else {
        None
    }
}

fn tag_of_text(t: &String) -> (r: Option<MsgTypes>)
    ensures
        r == tag_of(t@),
{
    if *t == String::from_str("users") {
        Some(MsgTypes::Users)
    } else if *t == String::from_str("register") {
        Some(MsgTypes::Register)
    } else if *t == String::from_str("message") {
        Some(MsgTypes::Message)
    } else {
        None
    }
}

/// Opening of a frame: `{`, the `messageType` key and its tag string.
/// Yields the discriminant and the position after the tag string.
pub open spec fn spec_tag_part(s: Seq<char>) -> Result<(MsgTypes, int), DecodeError> {
    match spec_expect(s, spec_skip_ws(s, 0), '{') {
        None => Err(DecodeError::Syntax),
        Some(i1) => match spec_key(s, spec_skip_ws(s, i1), "messageType"@) {
            None => Err(DecodeError::Syntax),
            Some(i2) => match spec_expect(s, spec_skip_ws(s, i2), ':') {
                None => Err(DecodeError::Syntax),
                Some(i3) => match spec_text(s, spec_skip_ws(s, i3)) {
                    None => Err(DecodeError::Syntax),
                    Some(tr) => match tag_of(tr.text) {
                        None => Err(DecodeError::UnknownTag),
                        Some(mt) => Ok((mt, tr.next)),
                    },
                },
            },
        },
    }
}

fn tag_part(v: &Vec<char>) -> (r: Result<(MsgTypes, usize), DecodeError>)
    ensures
        (match r {
            Err(e) => spec_tag_part(v@) == Err::<(MsgTypes, int), DecodeError>(e),
            Ok(p) => spec_tag_part(v@) == Ok::<(MsgTypes, int), DecodeError>((p.0, p.1 as int))
                && p.1 <= v@.len(),
        }),
{
    let i0 = skip_ws(v, 0);
    match expect(v, i0, '{') {
        None => Err(DecodeError::Syntax),
        Some(i1) => {
            let i1w = skip_ws(v, i1);
            match key_at(v, i1w, "messageType") {
                None => Err(DecodeError::Syntax),
                Some(i2) => {
                    let i2w = skip_ws(v, i2);
                    match expect(v, i2w, ':') {
                        None => Err(DecodeError::Syntax),
                        Some(i3) => {
                            let i3w = skip_ws(v, i3);
                            match text(v, i3w) {
                                None => Err(DecodeError::Syntax),
                                Some(p) => {
                                    let (t, m) = p;
                                    match tag_of_text(&t) {
                                        None => Err(DecodeError::UnknownTag),
                                        Some(mt) => Ok((mt, m)),
                                    }
                                },
                            }
                        },
                    }
                },
            }
        },
    }
}

/// The `dataArray` field after position `i`: a comma, the key, a colon and
/// either `null` or an array of strings.
pub open spec fn spec_array_part(s: Seq<char>, i: int) -> Option<(Option<Seq<Seq<char>>>, int)> {
    match spec_expect(s, spec_skip_ws(s, i), ',') {
        None => None,
        Some(j1) => match spec_key(s, spec_skip_ws(s, j1), "dataArray"@) {
            None => None,
            Some(j2) => match spec_expect(s, spec_skip_ws(s, j2), ':') {
                None => None,
                Some(j3) => {
                    let j4 = spec_skip_ws(s, j3);
                    match spec_null(s, j4) {
                        Some(n) => Some((None, n)),
                        None => match spec_items(s, j4) {
                            Some(ir) => Some((Some(ir.items), ir.next)),
                            None => None,
                        },
                    }
                },
            },
        },
    }
}

/// The element-wise view of an optional list of strings.
pub open spec fn opt_items_view(o: Option<Vec<String>>) -> Option<Seq<Seq<char>>> {
    match o {
        Some(v) => Some(seq_deep_view(v@)),
        None => None,
    }
}

fn array_part(v: &Vec<char>, i: usize) -> (r: Option<(Option<Vec<String>>, usize)>)
    ensures
        (match r {
            None => spec_array_part(v@, i as int) is None,
            Some(p) => spec_array_part(v@, i as int) == Some((opt_items_view(p.0), p.1 as int))
                && p.1 <= v@.len(),
        }),
{
    match expect(v, skip_ws(v, i), ',') {
        None => None,
        Some(j1) => match key_at(v, skip_ws(v, j1), "dataArray") {
            None => None,
            Some(j2) => match expect(v, skip_ws(v, j2), ':') {
                None => None,
                Some(j3) => {
                    let j4 = skip_ws(v, j3);
                    match null_lit(v, j4) {
                        Some(n) => Some((None, n)),
                        None => match items(v, j4) {
                            Some(p) => Some((Some(p.0), p.1)),
                            None => None,
                        },
                    }
                },
            },
        },
    }
}

/// The `data` field after position `i`: a comma, the key, a colon and either
/// `null` or a string.
pub open spec fn spec_data_part(s: Seq<char>, i: int) -> Option<(Option<Seq<char>>, int)> {
    match spec_expect(s, spec_skip_ws(s, i), ',') {
        None => None,
        Some(j1) => match spec_key(s, spec_skip_ws(s, j1), "data"@) {
            None => None,
            Some(j2) => match spec_expect(s, spec_skip_ws(s, j2), ':') {
                None => None,
                Some(j3) => {
                    let j4 = spec_skip_ws(s, j3);
                    match spec_null(s, j4) {
                        Some(n) => Some((None, n)),
                        None => match spec_text(s, j4) {
                            Some(tr) => Some((Some(tr.text), tr.next)),
                            None => None,
                        },
                    }
                },
            },
        },
    }
}

/// The view of an optional string.
pub open spec fn opt_text_view(o: Option<String>) -> Option<Seq<char>> {
    match o {
        Some(s) => Some(s@),
        None => None,
    }
}

fn data_part(v: &Vec<char>, i: usize) -> (r: Option<(Option<String>, usize)>)
    ensures
        (match r {
            None => spec_data_part(v@, i as int) is None,
            Some(p) => spec_data_part(v@, i as int) == Some((opt_text_view(p.0), p.1 as int))
                && p.1 <= v@.len(),
        }),
{
    match expect(v, skip_ws(v, i), ',') {
        None => None,
        Some(j1) => match key_at(v, skip_ws(v, j1), "data") {
            None => None,
            Some(j2) => match expect(v, skip_ws(v, j2), ':') {
                None => None,
                Some(j3) => {
                    let j4 = skip_ws(v, j3);
                    match null_lit(v, j4) {
                        Some(n) => Some((None, n)),
                        None => match text(v, j4) {
                            Some(p) => Some((Some(p.0), p.1)),
                            None => None,
                        },
                    }
                },
            },
        },
    }
}

/// The closing of a frame: `}` and then nothing but whitespace.
pub open spec fn spec_end_part(s: Seq<char>, i: int) -> bool {
    match spec_expect(s, spec_skip_ws(s, i), '}') {
        Some(j) => spec_skip_ws(s, j) == s.len(),
        None => false,
    }
}

fn end_part(v: &Vec<char>, i: usize) -> (r: bool)
    ensures
        r == spec_end_part(v@, i as int),
{
    match expect(v, skip_ws(v, i), '}') {
        Some(j) => skip_ws(v, j) == v.len(),
        None => false,
    }
}

/// What a frame means: the envelope it carries, or why it is rejected.
///
/// A frame is an object with the keys `messageType`, `dataArray` and `data`
/// in that order; `dataArray` and `data` may each be `null`.
pub open spec fn spec_decode(s: Seq<char>) -> Result<WsView, DecodeError> {
    match spec_tag_part(s) {
        Err(e) => Err(e),
        Ok((mt, i)) => match spec_array_part(s, i) {
            None => Err(DecodeError::Syntax),
            Some((da, j)) => match spec_data_part(s, j) {
                None => Err(DecodeError::Syntax),
                Some((d, k)) => if spec_end_part(s, k) {
                    Ok(WsView { message_type: mt, data_array: da, data: d })
                } else {
                    Err(DecodeError::Syntax)
                },
            },
        },
    }
}

/// Decodes one wire frame.
pub fn decode_ws(raw: &str) -> (r: Result<WebSocketMessage, DecodeError>)
    ensures
        (match r {
            Ok(w) => spec_decode(raw@) == Ok::<WsView, DecodeError>(w@),
            Err(e) => spec_decode(raw@) == Err::<WsView, DecodeError>(e),
        }),
{
    let v = str_chars(raw);
    match tag_part(&v) {
        Err(e) => Err(e),
        Ok(p0) => {
            let (mt, i) = p0;
            match array_part(&v, i) {
                None => Err(DecodeError::Syntax),
                Some(p1) => {
                    let (da, j) = p1;
                    match data_part(&v, j) {
                        None => Err(DecodeError::Syntax),
                        Some(p2) => {
                            let (d, k) = p2;
                            if end_part(&v, k) {
                                let w = WebSocketMessage {
                                    message_type: mt,
                                    data_array: da,
                                    data: d,
                                };
                                Ok(w)
                            } else {
                                Err(DecodeError::Syntax)
                            }
                        },
                    }
                },
            }
        },
    }
}

/// What the nested record of an inbound `message` frame means: an object
/// with the string keys `from` and `message`, in that order.
pub open spec fn spec_msgdata(s: Seq<char>) -> Result<MessageDataView, DecodeError> {
    match spec_expect(s, spec_skip_ws(s, 0), '{') {
        None => Err(DecodeError::Syntax),
        Some(i1) => match spec_key(s, spec_skip_ws(s, i1), "from"@) {
            None => Err(DecodeError::Syntax),
            Some(i2) => match spec_expect(s, spec_skip_ws(s, i2), ':') {
                None => Err(DecodeError::Syntax),
                Some(i3) => match spec_text(s, spec_skip_ws(s, i3)) {
                    None => Err(DecodeError::Syntax),
                    Some(fr) => match spec_expect(s, spec_skip_ws(s, fr.next), ',') {
                        None => Err(DecodeError::Syntax),
                        Some(j1) => match spec_key(s, spec_skip_ws(s, j1), "message"@) {
                            None => Err(DecodeError::Syntax),
                            Some(j2) => match spec_expect(s, spec_skip_ws(s, j2), ':') {
                                None => Err(DecodeError::Syntax),
                                Some(j3) => match spec_text(s, spec_skip_ws(s, j3)) {
                                    None => Err(DecodeError::Syntax),
                                    Some(me) => if spec_end_part(s, me.next) {
                                        Ok(MessageDataView { from: fr.text, message: me.text })
                                    } else {
                                        Err(DecodeError::Syntax)
                                    },
                                },
                            },
                        },
                    },
                },
            },
        },
    }
}

/// Decodes the nested record of an inbound `message` frame.
pub fn decode_message_data(raw: &str) -> (r: Result<MessageData, DecodeError>)
    ensures
        (match r {
            Ok(md) => spec_msgdata(raw@) == Ok::<MessageDataView, DecodeError>(md@),
            Err(e) => spec_msgdata(raw@) == Err::<MessageDataView, DecodeError>(e),
        }),
{
    let v = str_chars(raw);
    match expect(&v, skip_ws(&v, 0), '{') {
        None => Err(DecodeError::Syntax),
        Some(i1) => match key_at(&v, skip_ws(&v, i1), "from") {
            None => Err(DecodeError::Syntax),
            Some(i2) => match expect(&v, skip_ws(&v, i2), ':') {
                None => Err(DecodeError::Syntax),
                Some(i3) => match text(&v, skip_ws(&v, i3)) {
                    None => Err(DecodeError::Syntax),
                    Some(pf) => {
                        let (from, fnext) = pf;
                        match expect(&v, skip_ws(&v, fnext), ',') {
                            None => Err(DecodeError::Syntax),
                            Some(j1) => match key_at(&v, skip_ws(&v, j1), "message") {
                                None => Err(DecodeError::Syntax),
                                Some(j2) => match expect(&v, skip_ws(&v, j2), ':') {
                                    None => Err(DecodeError::Syntax),
                                    Some(j3) => match text(&v, skip_ws(&v, j3)) {
                                        None => Err(DecodeError::Syntax),
                                        Some(pm) => {
                                            let (message, mnext) = pm;
                                            if end_part(&v, mnext) {
                                                Ok(MessageData { from, message })
                                            } else {
                                                Err(DecodeError::Syntax)
                                            }
                                        },
                                    },
                                },
                            },
                        }
                    },
                },
            },
        },
    }
}

/// How one character is rendered inside a quoted string.
pub open spec fn spec_escape(c: char) -> Seq<char> {
    if c == '"' {
        seq!['\\', '"']
    } else if c == '\\' {
        seq!['\\', '\\']
    } else if c == '\n' {
        seq!['\\', 'n']
    } else if c == '\t' {
        seq!['\\', 't']
    } else if c == '\r' {
        seq!['\\', 'r']
    } else if c == '\u{0008}' {
        seq!['\\', 'b']
    } else if c == '\u{000C}' {
        seq!['\\', 'f']
    } else {
        seq![c]
    }
}

/// The rendering of the characters of `t` from position `i` on.
pub open spec fn spec_enc_text_from(t: Seq<char>, i: int) -> Seq<char>
    decreases t.len() - i,
{
    if i < 0 || i >= t.len() {
        Seq::empty()
    } else {
        spec_escape(t[i]) + spec_enc_text_from(t, i + 1)
    }
}

/// The rendering of `t` as a quoted string.
pub open spec fn spec_quoted(t: Seq<char>) -> Seq<char> {
    "\""@ + spec_enc_text_from(t, 0) + "\""@
}

/// The rendering of the array elements from position `i` on, each preceded
/// by a comma.
pub open spec fn spec_enc_items_rest(items: Seq<Seq<char>>, i: int) -> Seq<char>
    decreases items.len() - i,
{
    if i < 0 || i >= items.len() {
        Seq::empty()
    } else {
        ","@ + spec_quoted(items[i]) + spec_enc_items_rest(items, i + 1)
    }
}

/// The rendering of a list of strings as an array.
pub open spec fn spec_enc_items(items: Seq<Seq<char>>) -> Seq<char> {
    "["@ + (if items.len() == 0 {
        Seq::<char>::empty()
    } else {
        spec_quoted(items[0]) + spec_enc_items_rest(items, 1)
    }) + "]"@
}

/// The tag string of an envelope discriminant.
pub open spec fn spec_enc_tag(mt: MsgTypes) -> Seq<char> {
    match mt {
        MsgTypes::Users => "users"@,
        MsgTypes::Register => "register"@,
        MsgTypes::Message => "message"@,
    }
}

/// The rendering of a whole envelope as a wire frame.
pub open spec fn spec_encode(w: WsView) -> Seq<char> {
    "{\"messageType\":\""@ + spec_enc_tag(w.message_type) + "\",\"dataArray\":"@ + (match w
        .data_array {
        None => "null"@,
        Some(items) => spec_enc_items(items),
    }) + ",\"data\":"@ + (match w.data {
        None => "null"@,
        Some(t) => spec_quoted(t),
    }) + "}"@
}

fn push_escaped(out: String, c: char) -> (r: String)
    ensures
        r@ == out@ + spec_escape(c),
{
    let ghost out0 = out@;
    let mut o = out;
    if c == '"' {
        push_char(&mut o, '\\');
        push_char(&mut o, '"');
    } else if c == '\\' {
        push_char(&mut o, '\\');
        push_char(&mut o, '\\');
    } else if c == '\n' {
        push_char(&mut o, '\\');
        push_char(&mut o, 'n');
    } else if c == '\t' {
        push_char(&mut o, '\\');
        push_char(&mut o, 't');
    } else if c == '\r' {
        push_char(&mut o, '\\');
        push_char(&mut o, 'r');
    } else if c == '\u{0008}' {
        push_char(&mut o, '\\');
        push_char(&mut o, 'b');
    } else if c == '\u{000C}' {
        push_char(&mut o, '\\');
        push_char(&mut o, 'f');
    } else {
        push_char(&mut o, c);
    }
    proof {
        assert(o@ =~= out0 + spec_escape(c));
    }
    o
}

fn enc_text_from(v: &Vec<char>, i: usize, out: String) -> (r: String)
    ensures
        r@ == out@ + spec_enc_text_from(v@, i as int),
    decreases v@.len() - i,
{
    if i >= v.len() {
        proof {
            assert(out@ + spec_enc_text_from(v@, i as int) =~= out@);
        }
        out
    } else {
        let ghost out0 = out@;
        let c = v[i];
        let o = push_escaped(out, c);
        let r = enc_text_from(v, i + 1, o);
        proof {
            assert(r@ =~= out0 + spec_enc_text_from(v@, i as int));
        }
        r
    }
}

fn quoted(out: String, t: &String) -> (r: String)
    ensures
        r@ == out@ + spec_quoted(t@),
{
    let ghost out0 = out@;
    let mut o = out;
    o.append("\"");
    let chars = str_chars(t.as_str());
    let mut o2 = enc_text_from(&chars, 0, o);
    o2.append("\"");
    proof {
        assert(o2@ =~= out0 + spec_quoted(t@));
    }
    o2
}

fn enc_items_rest(items: &Vec<String>, i: usize, out: String) -> (r: String)
    ensures
        r@ == out@ + spec_enc_items_rest(seq_deep_view(items@), i as int),
    decreases items@.len() - i,
{
    if i >= items.len() {
        proof {
            assert(out@ + spec_enc_items_rest(seq_deep_view(items@), i as int) =~= out@);
        }
        out
    } else {
        let ghost out0 = out@;
        let mut o = out;
        o.append(",");
        let o1 = quoted(o, &items[i]);
        let r = enc_items_rest(items, i + 1, o1);
        proof {
            assert(r@ =~= out0 + spec_enc_items_rest(seq_deep_view(items@), i as int));
        }
        r
    }
}

fn enc_items(out: String, items: &Vec<String>) -> (r: String)
    ensures
        r@ == out@ + spec_enc_items(seq_deep_view(items@)),
{
    let ghost out0 = out@;
    let mut o = out;
    o.append("[");
    if items.len() == 0 {
        o.append("]");
        proof {
            assert(o@ =~= out0 + spec_enc_items(seq_deep_view(items@)));
        }
        o
    } else {
        let o1 = quoted(o, &items[0]);
        let mut o2 = enc_items_rest(items, 1, o1);
        o2.append("]");
        proof {
            assert(o2@ =~= out0 + spec_enc_items(seq_deep_view(items@)));
        }
        o2
    }
}

/// Encodes an envelope as a wire frame. Total: every envelope has a frame.
pub fn encode_ws(w: &WebSocketMessage) -> (r: String)
    ensures
        r@ == spec_encode(w@),
{
    let mut out = String::from_str("{\"messageType\":\"");
    match w.message_type {
        MsgTypes::Users => out.append("users"),
        MsgTypes::Register => out.append("register"),
        MsgTypes::Message => out.append("message"),
    }
    out.append("\",\"dataArray\":");
    match &w.data_array {
        None => out.append("null"),
        Some(items) => {
            out = enc_items(out, items);
        },
    }
    out.append(",\"data\":");
    match &w.data {
        None => out.append("null"),
        Some(t) => {
            out = quoted(out, t);
        },
    }
    out.append("}");
    proof {
        assert(out@ =~= spec_encode(w@));
    }
    out
}

proof fn lemma_text_body_plain(s: Seq<char>, p: int, t: Seq<char>, k: int, acc: Seq<char>)
    requires
        0 <= k <= t.len(),
        0 <= p,
        p + (t.len() - k) + 1 <= s.len(),
        s[p + (t.len() - k)] == '"',
        forall|m: int|
            k <= m < t.len() ==> s[p + (m - k)] == t[m] && t[m] != '"' && t[m] != '\\',
    ensures
        spec_text_body(s, p, acc) == Some(
            TextRes { text: acc + t.subrange(k, t.len() as int), next: p + (t.len() - k) + 1 },
        ),
    decreases t.len() - k,
{
    if k == t.len() {
        assert(s[p] == '"');
        assert(acc + t.subrange(k, t.len() as int) =~= acc);
    } else {
        assert(s[p] == t[k] && t[k] != '"' && t[k] != '\\');
        lemma_text_body_plain(s, p + 1, t, k + 1, acc.push(t[k]));
        assert(acc.push(t[k]) + t.subrange(k + 1, t.len() as int) =~= acc + t.subrange(
            k,
            t.len() as int,
        ));
    }
}

/// Parsing a quoted string whose body holds neither quote nor backslash
/// yields exactly that body.
proof fn lemma_text_plain(s: Seq<char>, i: int, t: Seq<char>)
    requires
        0 <= i,
        i + t.len() + 2 <= s.len(),
        s[i] == '"',
        s[i + t.len() + 1] == '"',
        forall|k: int| 0 <= k < t.len() ==> s[i + 1 + k] == t[k] && t[k] != '"' && t[k] != '\\',
    ensures
        spec_text(s, i) == Some(TextRes { text: t, next: i + t.len() + 2 }),
{
    lemma_text_body_plain(s, i + 1, t, 0, Seq::empty());
    assert(Seq::empty() + t.subrange(0, t.len() as int) =~= t);
}

proof fn lemma_text_body_enc(s: Seq<char>, p: int, t: Seq<char>, k: int, acc: Seq<char>)
    requires
        0 <= k <= t.len(),
        0 <= p,
        p + spec_enc_text_from(t, k).len() + 1 <= s.len(),
        s[p + spec_enc_text_from(t, k).len()] == '"',
        forall|m: int|
            0 <= m < spec_enc_text_from(t, k).len() ==> s[p + m] == spec_enc_text_from(t, k)[m],
    ensures
        spec_text_body(s, p, acc) == Some(
            TextRes {
                text: acc + t.subrange(k, t.len() as int),
                next: p + spec_enc_text_from(t, k).len() + 1,
            },
        ),
    decreases t.len() - k,
{
    if k == t.len() {
        assert(s[p] == '"');
        assert(acc + t.subrange(k, t.len() as int) =~= acc);
    } else {
        let c = t[k];
        let esc = spec_escape(c);
        let rest = spec_enc_text_from(t, k + 1);
        assert(spec_enc_text_from(t, k) == esc + rest);
        let whole = spec_enc_text_from(t, k);
        if esc.len() == 2 {
            // c is one of the escaped characters: a backslash and its code
            assert(s[p + 0] == whole[0] && whole[0] == esc[0]);
            assert(s[p + 1] == whole[1] && whole[1] == esc[1]);
            assert(esc[0] == '\\');
            assert(is_escape_code(esc[1]) && unescape(esc[1]) == c);
            assert forall|m: int| 0 <= m < rest.len() implies s[p + 2 + m] == rest[m] by {
                assert(s[p + (2 + m)] == whole[2 + m]);
                assert(whole[2 + m] == rest[m]);
            }
            lemma_text_body_enc(s, p + 2, t, k + 1, acc.push(c));
        } else {
            // c stands for itself and is neither a quote nor a backslash
            assert(esc == seq![c]);
            assert(s[p + 0] == whole[0] && whole[0] == esc[0]);
            assert(s[p] == c && c != '"' && c != '\\');
            assert forall|m: int| 0 <= m < rest.len() implies s[p + 1 + m] == rest[m] by {
                assert(s[p + (1 + m)] == whole[1 + m]);
                assert(whole[1 + m] == rest[m]);
            }
            lemma_text_body_enc(s, p + 1, t, k + 1, acc.push(c));
        }
        assert(acc.push(c) + t.subrange(k + 1, t.len() as int) =~= acc + t.subrange(
            k,
            t.len() as int,
        ));
    }
}

/// Parsing a quoted string whose body is the rendering of `t` yields `t`.
proof fn lemma_text_enc(s: Seq<char>, i: int, t: Seq<char>)
    requires
        0 <= i,
        i + spec_enc_text_from(t, 0).len() + 2 <= s.len(),
        s[i] == '"',
        s[i + spec_enc_text_from(t, 0).len() + 1] == '"',
        forall|m: int|
            0 <= m < spec_enc_text_from(t, 0).len() ==> s[i + 1 + m] == spec_enc_text_from(t, 0)[m],
    ensures
        spec_text(s, i) == Some(
            TextRes { text: t, next: i + spec_enc_text_from(t, 0).len() + 2 },
        ),
{
    lemma_text_body_enc(s, i + 1, t, 0, Seq::empty());
    assert(Seq::empty() + t.subrange(0, t.len() as int) =~= t);
}

proof fn lemma_items_rest_enc(
    s: Seq<char>,
    p: int,
    items: Seq<Seq<char>>,
    k: int,
    acc: Seq<Seq<char>>,
)
    requires
        1 <= k <= items.len(),
        0 <= p,
        acc == items.subrange(0, k),
        p + spec_enc_items_rest(items, k).len() + 1 <= s.len(),
        s[p + spec_enc_items_rest(items, k).len()] == ']',
        forall|m: int|
            0 <= m < spec_enc_items_rest(items, k).len() ==> s[p + m] == spec_enc_items_rest(
                items,
                k,
            )[m],
    ensures
        spec_items_rest(s, p, acc) == Some(
            ItemsRes { items: items, next: p + spec_enc_items_rest(items, k).len() + 1 },
        ),
    decreases items.len() - k,
{
    reveal_strlit(",");
    reveal_strlit("\"");
    if k == items.len() {
        assert(s[p] == ']');
        assert(spec_skip_ws(s, p) == p);
        assert(acc =~= items);
    } else {
        let r_all = spec_enc_items_rest(items, k);
        let q = spec_quoted(items[k]);
        let r_next = spec_enc_items_rest(items, k + 1);
        assert(r_all == ","@ + q + r_next);
        let el = spec_enc_text_from(items[k], 0).len() as int;
        assert(q.len() == el + 2);
        assert(s[p + 0] == r_all[0] && r_all[0] == ',');
        assert(spec_skip_ws(s, p) == p);
        assert(s[p + 1] == r_all[1] && r_all[1] == q[0] && q[0] == '"');
        assert(spec_skip_ws(s, p + 1) == p + 1);
        assert(q[1 + el] == '"');
        assert(s[p + (2 + el)] == r_all[2 + el] && r_all[2 + el] == q[1 + el]);
        assert forall|m: int|
            0 <= m < el implies s[p + 2 + m] == spec_enc_text_from(items[k], 0)[m] by {
            assert(s[p + (2 + m)] == r_all[2 + m]);
            assert(r_all[2 + m] == q[1 + m]);
            assert(q[1 + m] == spec_enc_text_from(items[k], 0)[m]);
        }
        lemma_text_enc(s, p + 1, items[k]);
        assert(spec_text(s, p + 1) == Some(TextRes { text: items[k], next: p + 1 + q.len() }));
        let nxt = p + 1 + q.len() as int;
        assert(acc.push(items[k]) =~= items.subrange(0, k + 1));
        assert forall|m: int| 0 <= m < r_next.len() implies s[nxt + m] == r_next[m] by {
            assert(s[p + (1 + q.len() + m)] == r_all[1 + q.len() + m]);
            assert(r_all[1 + q.len() + m] == r_next[m]);
        }
        assert(s[nxt + r_next.len()] == ']') by {
            assert(nxt + r_next.len() == p + r_all.len());
        }
        lemma_items_rest_enc(s, nxt, items, k + 1, acc.push(items[k]));
    }
}

proof fn lemma_items_enc(s: Seq<char>, i: int, items: Seq<Seq<char>>)
    requires
        0 <= i,
        i + spec_enc_items(items).len() <= s.len(),
        forall|m: int|
            0 <= m < spec_enc_items(items).len() ==> s[i + m] == spec_enc_items(items)[m],
    ensures
        spec_items(s, i) == Some(
            ItemsRes { items: items, next: i + spec_enc_items(items).len() },
        ),
{
    reveal_strlit("[");
    reveal_strlit("]");
    reveal_strlit("\"");
    let a = spec_enc_items(items);
    assert(s[i + 0] == a[0] && a[0] == '[');
    assert(spec_expect(s, i, '[') == Some(i + 1));
    if items.len() == 0 {
        assert(a.len() == 2);
        assert(s[i + 1] == a[1] && a[1] == ']');
        assert(spec_skip_ws(s, i + 1) == i + 1);
        assert(Seq::<Seq<char>>::empty() =~= items);
    } else {
        let q = spec_quoted(items[0]);
        let r1 = spec_enc_items_rest(items, 1);
        assert(a == "["@ + (q + r1) + "]"@);
        let el = spec_enc_text_from(items[0], 0).len() as int;
        assert(q.len() == el + 2);
        assert(s[i + 1] == a[1] && a[1] == q[0] && q[0] == '"');
        assert(spec_skip_ws(s, i + 1) == i + 1);
        assert(q[1 + el] == '"');
        assert(s[i + (2 + el)] == a[2 + el] && a[2 + el] == q[1 + el]);
        assert forall|m: int|
            0 <= m < el implies s[i + 2 + m] == spec_enc_text_from(items[0], 0)[m] by {
            assert(s[i + (2 + m)] == a[2 + m]);
            assert(a[2 + m] == q[1 + m]);
            assert(q[1 + m] == spec_enc_text_from(items[0], 0)[m]);
        }
        lemma_text_enc(s, i + 1, items[0]);
        assert(spec_text(s, i + 1) == Some(TextRes { text: items[0], next: i + 1 + q.len() }));
        let nxt = i + 1 + q.len() as int;
        assert(seq![items[0]] =~= items.subrange(0, 1));
        assert forall|m: int| 0 <= m < r1.len() implies s[nxt + m] == r1[m] by {
            assert(s[i + (1 + q.len() + m)] == a[1 + q.len() + m]);
            assert(a[1 + q.len() + m] == r1[m]);
        }
        assert(s[nxt + r1.len()] == ']') by {
            assert(nxt + r1.len() == i + a.len() - 1);
            assert(s[i + (a.len() - 1)] == a[a.len() - 1]);
            assert(a[a.len() - 1] == ']');
        }
        lemma_items_rest_enc(s, nxt, items, 1, seq![items[0]]);
    }
}

#[verifier::rlimit(60)]
proof fn lemma_decode_of_encoded(w: WsView)
    ensures
        spec_decode(spec_encode(w)) == Ok::<WsView, DecodeError>(w),
{
    reveal_strlit("{\"messageType\":\"");
    reveal_strlit("[");
    reveal_strlit("messageType");
    reveal_strlit("users");
    reveal_strlit("register");
    reveal_strlit("message");
    reveal_strlit("\",\"dataArray\":");
    reveal_strlit("dataArray");
    reveal_strlit("null");
    reveal_strlit(",\"data\":");
    reveal_strlit("data");
    reveal_strlit("\"");
    reveal_strlit("}");
    let e = spec_encode(w);
    let a0 = "{\"messageType\":\""@;
    let tg = spec_enc_tag(w.message_type);
    let a1 = "\",\"dataArray\":"@;
    let arr = match w.data_array {
        None => "null"@,
        Some(items) => spec_enc_items(items),
    };
    let a2 = ",\"data\":"@;
    let dat = match w.data {
        None => "null"@,
        Some(t) => spec_quoted(t),
    };
    let cl = "}"@;
    assert(e == a0 + tg + a1 + arr + a2 + dat + cl);
    let b2 = 16 + tg.len() as int;
    let b3 = b2 + 14;
    let b4 = b3 + arr.len() as int;
    let b5 = b4 + 8;
    let b6 = b5 + dat.len() as int;
    assert(e.len() == b6 + 1);
    assert forall|m: int| 0 <= m < 16 implies e[m] == a0[m] by {}
    assert forall|m: int| 0 <= m < tg.len() implies e[16 + m] == tg[m] by {}
    assert forall|m: int| 0 <= m < 14 implies e[b2 + m] == a1[m] by {}
    assert forall|m: int| 0 <= m < arr.len() implies e[b3 + m] == arr[m] by {}
    assert forall|m: int| 0 <= m < 8 implies e[b4 + m] == a2[m] by {}
    assert forall|m: int| 0 <= m < dat.len() implies e[b5 + m] == dat[m] by {}
    assert(e[b6] == cl[0]);

    // the frame opening and the discriminant
    assert(spec_skip_ws(e, 0) == 0);
    assert(spec_expect(e, 0, '{') == Some(1int));
    assert(spec_skip_ws(e, 1) == 1);
    assert forall|k: int|
        0 <= k < 11 implies e[2 + k] == "messageType"@[k] && "messageType"@[k] != '"'
            && "messageType"@[k] != '\\' by {
        assert(e[2 + k] == a0[2 + k]);
    }
    lemma_text_plain(e, 1, "messageType"@);
    assert(spec_key(e, 1, "messageType"@) == Some(14int));
    assert(spec_skip_ws(e, 14) == 14);
    assert(spec_expect(e, 14, ':') == Some(15int));
    assert(spec_skip_ws(e, 15) == 15);
    assert(e[15] == '"');
    assert(e[b2] == a1[0]);
    assert forall|k: int|
        0 <= k < tg.len() implies e[16 + k] == tg[k] && tg[k] != '"' && tg[k] != '\\' by {}
    lemma_text_plain(e, 15, tg);
    assert(tag_of(tg) == Some(w.message_type));
    assert(spec_tag_part(e) == Ok::<(MsgTypes, int), DecodeError>((w.message_type, b2 + 1)));

    // the dataArray field, rendered null
    assert(spec_skip_ws(e, b2 + 1) == b2 + 1);
    assert(spec_expect(e, b2 + 1, ',') == Some(b2 + 2));
    assert(spec_skip_ws(e, b2 + 2) == b2 + 2);
    assert(e[b2 + 2] == '"');
    assert(e[b2 + 12] == '"');
    assert forall|k: int|
        0 <= k < 9 implies e[b2 + 3 + k] == "dataArray"@[k] && "dataArray"@[k] != '"'
            && "dataArray"@[k] != '\\' by {
        assert(e[b2 + (3 + k)] == a1[3 + k]);
    }
    lemma_text_plain(e, b2 + 2, "dataArray"@);
    assert(spec_key(e, b2 + 2, "dataArray"@) == Some(b2 + 13));
    assert(spec_skip_ws(e, b2 + 13) == b2 + 13);
    assert(spec_expect(e, b2 + 13, ':') == Some(b3));
    match w.data_array {
        None => {
            assert(spec_skip_ws(e, b3) == b3);
            assert(spec_null(e, b3) == Some(b4));
            assert(spec_array_part(e, b2 + 1) == Some((None::<Seq<Seq<char>>>, b4)));
        },
        Some(items) => {
            assert(e[b3] == arr[0] && arr[0] == '[');
            assert(spec_skip_ws(e, b3) == b3);
            assert(spec_null(e, b3) is None);
            lemma_items_enc(e, b3, items);
            assert(spec_items(e, b3) == Some(ItemsRes { items: items, next: b4 }));
            assert(spec_array_part(e, b2 + 1) == Some((Some(items), b4)));
        },
    }

    // the data field: null, or the quoted rendering of the payload
    assert(spec_skip_ws(e, b4) == b4);
    assert(spec_expect(e, b4, ',') == Some(b4 + 1));
    assert(spec_skip_ws(e, b4 + 1) == b4 + 1);
    assert(e[b4 + 1] == '"');
    assert(e[b4 + 6] == '"');
    assert forall|k: int|
        0 <= k < 4 implies e[b4 + 2 + k] == "data"@[k] && "data"@[k] != '"' && "data"@[k]
            != '\\' by {
        assert(e[b4 + (2 + k)] == a2[2 + k]);
    }
    lemma_text_plain(e, b4 + 1, "data"@);
    assert(spec_key(e, b4 + 1, "data"@) == Some(b4 + 7));
    assert(spec_skip_ws(e, b4 + 7) == b4 + 7);
    assert(spec_expect(e, b4 + 7, ':') == Some(b5));
    match w.data {
        None => {
            assert(spec_skip_ws(e, b5) == b5);
            assert(spec_null(e, b5) == Some(b6));
            assert(spec_data_part(e, b4) == Some((None::<Seq<char>>, b6)));
        },
        Some(t) => {
            let el = spec_enc_text_from(t, 0).len() as int;
            assert(dat.len() == el + 2);
            assert(dat[0] == '"');
            assert(e[b5] == '"');
            assert(spec_skip_ws(e, b5) == b5);
            assert(spec_null(e, b5) is None);
            assert(dat[1 + el] == '"');
            assert(e[b5 + (1 + el)] == dat[1 + el]);
            assert forall|m: int|
                0 <= m < el implies e[b5 + 1 + m] == spec_enc_text_from(t, 0)[m] by {
                assert(e[b5 + (1 + m)] == dat[1 + m]);
                assert(dat[1 + m] == spec_enc_text_from(t, 0)[m]);
            }
            lemma_text_enc(e, b5, t);
            assert(spec_text(e, b5) == Some(TextRes { text: t, next: b6 }));
            assert(spec_data_part(e, b4) == Some((Some(t), b6)));
        },
    }

    // the frame closing
    assert(e[b6] == '}');
    assert(spec_skip_ws(e, b6) == b6);
    assert(spec_expect(e, b6, '}') == Some(b6 + 1));
    assert(spec_skip_ws(e, b6 + 1) == e.len() as int);
    assert(spec_end_part(e, b6));
    assert(WsView {
        message_type: w.message_type,
        data_array: w.data_array,
        data: w.data,
    } =~= w);
}

/// Round trip: every envelope decodes, from its own rendering, back to
/// itself — in particular every `register` and `message` frame this client
/// sends reaches the peer meaning exactly what was built.
pub proof fn lemma_encode_decode_round_trip(w: WsView)
    ensures
        spec_decode(spec_encode(w)) == Ok::<WsView, DecodeError>(w),
{
    lemma_decode_of_encoded(w);
}

} // verus!
