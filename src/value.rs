use vstd::prelude::*;
use vstd::string::*;

use crate::error::FeatureFlagError;

verus! {

/// A flag's typed value, tagged on the wire by a `type` discriminator.
#[derive(Debug, PartialEq, Eq)]
pub enum FlagDataType {
    Boolean(bool),
    String(String),
    Integer(i32),
    /// Already-encoded structured text, carried verbatim.
    Custom(String),
}

/// What a `FlagDataType` holds, with texts as character sequences.
pub enum FlagDataView {
    Boolean(bool),
    String(Seq<char>),
    Integer(i32),
    Custom(Seq<char>),
}

impl View for FlagDataType {
    type V = FlagDataView;

    open spec fn view(&self) -> FlagDataView {
        match self {
            FlagDataType::Boolean(b) => FlagDataView::Boolean(*b),
            FlagDataType::String(s) => FlagDataView::String(s@),
            FlagDataType::Integer(i) => FlagDataView::Integer(*i),
            FlagDataType::Custom(s) => FlagDataView::Custom(s@),
        }
    }
}

/// The untagged form of a flag's value.
#[derive(Debug)]
pub enum FlagDataValue {
    BooleanValue(bool),
    StringValue(String),
    IntegerValue(i32),
    /// Already-encoded structured text.
    CustomValue(String),
}

/// The decimal digits of a natural number, most significant first.
pub open spec fn digits(n: nat) -> Seq<char>
    decreases n,
{
    if n < 10 {
        seq![(n + 48) as char]
    } else {
        digits(n / 10).push(((n % 10) + 48) as char)
    }
}

/// The shortest decimal text of an integer, with a leading `-` when negative.
pub open spec fn decimal(i: int) -> Seq<char> {
    if i < 0 {
        seq!['-'] + digits((-i) as nat)
    } else {
        digits(i as nat)
    }
}

/// The JSON string literal that serde_json writes for a text.
pub uninterp spec fn json_text_of(s: Seq<char>) -> Seq<char>;

/// The discriminator written for each variant.
pub open spec fn tag(v: FlagDataView) -> Seq<char> {
    match v {
        FlagDataView::Boolean(_) => "boolean"@,
        FlagDataView::String(_) => "string"@,
        FlagDataView::Integer(_) => "integer"@,
        FlagDataView::Custom(_) => "custom"@,
    }
}

/// The payload written for each variant.
pub open spec fn payload(v: FlagDataView) -> Seq<char> {
    match v {
        FlagDataView::Boolean(b) => if b {
            "true"@
        } else {
            "false"@
        },
        FlagDataView::String(s) => json_text_of(s),
        FlagDataView::Integer(i) => decimal(i as int),
        FlagDataView::Custom(s) => json_text_of(s),
    }
}

/// The opening of an envelope, up to its payload.
pub open spec fn header(t: Seq<char>) -> Seq<char> {
    "{\"type\":\""@ + t + "\",\"value\":"@
}

/// The envelope of a value: `{"type":"<tag>","value":<payload>}`.
pub open spec fn envelope(v: FlagDataView) -> Seq<char> {
    header(tag(v)) + payload(v) + "}"@
}

/// Relies on serde_json::to_string on a `str`: the JSON string literal of the text.
#[verifier::external_body]
fn json_quote(s: &str) -> (r: String)
    ensures
        r@ == json_text_of(s@),
{
    serde_json::to_string(s).unwrap()
}

/// Relies on serde_json::from_str into a `String`: a literal that serde_json wrote
/// for a text reads back as that text.
#[verifier::external_body]
fn json_unquote(p: &str) -> (r: Option<String>)
    ensures
        forall|t: Seq<char>| p@ == #[trigger] json_text_of(t) ==> (r is Some && r->Some_0@ == t),
{
    serde_json::from_str::<String>(p).ok()
}

/// Relies on serde_json::to_string on an `i32`: its shortest decimal text.
#[verifier::external_body]
fn json_int(i: i32) -> (r: String)
    ensures
        r@ == decimal(i as int),
{
    serde_json::to_string(&i).unwrap()
}

/// Relies on serde_json::from_str into an `i32`: the decimal text of a number
/// reads back as that number.
#[verifier::external_body]
fn json_parse_int(p: &str) -> (r: Option<i32>)
    ensures
        forall|i: i32| p@ == #[trigger] decimal(i as int) ==> r == Some(i),
{
    serde_json::from_str::<i32>(p).ok()
}

/// The header of an envelope for the given discriminator.
fn header_text(t: &str) -> (r: String)
    ensures
        r@ == header(t@),
{
    let mut r = String::from_str("{\"type\":\"");
    r.append(t);
    r.append("\",\"value\":");
    r
}

/// Encodes a value as its envelope.
pub fn encode(v: &FlagDataType) -> (r: String)
    ensures
        r@ == envelope(v@),
{
    let (mut out, body) = match v {
        FlagDataType::Boolean(b) => (
            header_text("boolean"),
            if *b {
                String::from_str("true")
            } else {
                String::from_str("false")
            },
        ),
        FlagDataType::String(s) => (header_text("string"), json_quote(s.as_str())),
        FlagDataType::Integer(i) => (header_text("integer"), json_int(*i)),
        FlagDataType::Custom(s) => (header_text("custom"), json_quote(s.as_str())),
    };
    out.append(body.as_str());
    out.append("}");
    out
}

proof fn lemma_header_shape(t: Seq<char>)
    ensures
        header(t).len() == t.len() + 19,
        forall|j: int| 0 <= j < t.len() ==> #[trigger] header(t)[9 + j] == t[j],
{
    reveal_strlit("{\"type\":\"");
    reveal_strlit("\",\"value\":");
}

proof fn lemma_tags()
    ensures
        "boolean"@.len() == 7 && "boolean"@[0] == 'b',
        "string"@.len() == 6 && "string"@[0] == 's',
        "integer"@.len() == 7 && "integer"@[0] == 'i',
        "custom"@.len() == 6 && "custom"@[0] == 'c',
        "true"@ != "false"@,
{
    reveal_strlit("boolean");
    reveal_strlit("string");
    reveal_strlit("integer");
    reveal_strlit("custom");
    reveal_strlit("true");
    reveal_strlit("false");
    assert("true"@.len() != "false"@.len());
}

/// An envelope ends in `}`, and without it begins with the header of its tag,
/// followed by the payload.
proof fn lemma_envelope_parts(v: FlagDataView)
    ensures
        envelope(v).len() >= 1,
        envelope(v).last() == '}',
        envelope(v).drop_last() == header(tag(v)) + payload(v),
{
    reveal_strlit("}");
    assert(envelope(v).drop_last() =~= header(tag(v)) + payload(v));
}

/// Within an envelope, only the header of its own tag stands at the start.
proof fn lemma_header_match(v: FlagDataView, t: Seq<char>)
    requires
        t == "boolean"@ || t == "string"@ || t == "integer"@ || t == "custom"@,
        header(t).len() <= envelope(v).drop_last().len(),
        envelope(v).drop_last().subrange(0, header(t).len() as int) == header(t),
    ensures
        t == tag(v),
        envelope(v).drop_last().subrange(header(t).len() as int, envelope(v).drop_last().len() as int)
            == payload(v),
{
    lemma_tags();
    lemma_envelope_parts(v);
    lemma_header_shape(t);
    lemma_header_shape(tag(v));
    let inner = envelope(v).drop_last();
    assert(inner[9] == header(t)[9 + 0int]);
    assert(inner[9] == header(tag(v))[9 + 0int]);
    assert(t == tag(v));
    assert(inner.subrange(header(t).len() as int, inner.len() as int) =~= payload(v));
}

/// Whether `s` begins with `p`.
fn has_prefix(s: &str, p: &str) -> (r: bool)
    ensures
        r == (p@.len() <= s@.len() && s@.subrange(0, p@.len() as int) == p@),
{
    let n = s.unicode_len();
    let m = p.unicode_len();
    if m > n {
        return false;
    }
    let mut i: usize = 0;
    while i < m
        invariant
            m == p@.len(),
            n == s@.len(),
            m <= n,
            i <= m,
            forall|j: int| 0 <= j < i ==> s@[j] == p@[j],
        decreases m - i,
    {
        if s.get_char(i) != p.get_char(i) {
            assert(s@.subrange(0, m as int)[i as int] != p@[i as int]);
            return false;
        }
        i += 1;
    }
    assert(s@.subrange(0, m as int) =~= p@);
    true
}

/// Whether two texts are equal.
fn same_text(a: &str, b: &str) -> (r: bool)
    ensures
        r == (a@ == b@),
{
    if a.unicode_len() != b.unicode_len() {
        return false;
    }
    let r = has_prefix(a, b);
    proof {
        if a@ == b@ {
            assert(a@.subrange(0, b@.len() as int) =~= a@);
        }
        if r {
            assert(a@ =~= a@.subrange(0, b@.len() as int));
        }
    }
    r
}

/// The rest of `inner` after the header for the discriminator `t`, if it begins so.
fn after_header<'a>(inner: &'a str, t: &str) -> (r: Option<&'a str>)
    ensures
        r is Some <==> (header(t@).len() <= inner@.len() && inner@.subrange(
            0,
            header(t@).len() as int,
        ) == header(t@)),
        r is Some ==> r->Some_0@ == inner@.subrange(header(t@).len() as int, inner@.len() as int),
{
    let h = header_text(t);
    if has_prefix(inner, h.as_str()) {
        let k = h.as_str().unicode_len();
        let n = inner.unicode_len();
        Some(inner.substring_char(k, n))
    } else {
        None
    }
}

/// Decodes the payload of a `boolean` envelope.
fn decode_boolean(p: &str) -> (r: Result<FlagDataType, FeatureFlagError>)
    ensures
        r is Ok ==> tag(r->Ok_0@) == "boolean"@ && payload(r->Ok_0@) == p@,
        forall|v: FlagDataView|
            tag(v) == "boolean"@ && #[trigger] payload(v) == p@ ==> r is Ok && r->Ok_0@ == v,
        r is Err ==> r->Err_0 is DecodeError,
{
    proof {
        lemma_tags();
    }
    if same_text(p, "true") {
        Ok(FlagDataType::Boolean(true))
    } else if same_text(p, "false") {
        Ok(FlagDataType::Boolean(false))
    } else {
        Err(FeatureFlagError::DecodeError)
    }
}

/// Decodes the payload of a `string` or, with `custom`, a `custom` envelope.
fn decode_text(p: &str, custom: bool) -> (r: Result<FlagDataType, FeatureFlagError>)
    ensures
        r is Ok ==> tag(r->Ok_0@) == (if custom {
            "custom"@
        } else {
            "string"@
        }) && payload(r->Ok_0@) == p@,
        forall|v: FlagDataView|
            tag(v) == (if custom {
                "custom"@
            } else {
                "string"@
            }) && #[trigger] payload(v) == p@ ==> r is Ok && r->Ok_0@ == v,
        r is Err ==> r->Err_0 is DecodeError,
{
    proof {
        lemma_tags();
    }
    match json_unquote(p) {
        Some(t) => {
            let q = json_quote(t.as_str());
            if same_text(q.as_str(), p) {
                if custom {
                    Ok(FlagDataType::Custom(t))
                } else {
                    Ok(FlagDataType::String(t))
                }
            } else {
                Err(FeatureFlagError::DecodeError)
            }
        },
        None => Err(FeatureFlagError::DecodeError),
    }
}

/// Decodes the payload of an `integer` envelope.
fn decode_integer(p: &str) -> (r: Result<FlagDataType, FeatureFlagError>)
    ensures
        r is Ok ==> tag(r->Ok_0@) == "integer"@ && payload(r->Ok_0@) == p@,
        forall|v: FlagDataView|
            tag(v) == "integer"@ && #[trigger] payload(v) == p@ ==> r is Ok && r->Ok_0@ == v,
        r is Err ==> r->Err_0 is DecodeError,
{
    proof {
        lemma_tags();
    }
    match json_parse_int(p) {
        Some(i) => {
            let q = json_int(i);
            if same_text(q.as_str(), p) {
                Ok(FlagDataType::Integer(i))
            } else {
                Err(FeatureFlagError::DecodeError)
            }
        },
        None => Err(FeatureFlagError::DecodeError),
    }
}

/// Decodes a compact envelope back into a value. Exactly the envelopes of
/// values are accepted, each as the value it was written for.
fn decode_compact(s: &str) -> (r: Result<FlagDataType, FeatureFlagError>)
    ensures
        r is Ok ==> envelope(r->Ok_0@) == s@,
        forall|v: FlagDataView|
            #[trigger] envelope(v) == s@ ==> r is Ok && r->Ok_0@ == v,
        r is Err ==> r->Err_0 is DecodeError,
{
    proof {
        lemma_tags();
        assert forall|v: FlagDataView| #[trigger] envelope(v) == s@ implies s@.len() >= 1 && s@.last()
            == '}' by {
            lemma_envelope_parts(v);
        }
    }
    let n = s.unicode_len();
    if n == 0 || s.get_char(n - 1) != '}' {
        return Err(FeatureFlagError::DecodeError);
    }
    let inner = s.substring_char(0, n - 1);
    assert(inner@ == s@.drop_last());
    let r = if let Some(p) = after_header(inner, "boolean") {
        decode_boolean(p)
    } else if let Some(p) = after_header(inner, "string") {
        decode_text(p, false)
    } else if let Some(p) = after_header(inner, "integer") {
        decode_integer(p)
    } else if let Some(p) = after_header(inner, "custom") {
        decode_text(p, true)
    } else {
        Err(FeatureFlagError::DecodeError)
    };
    proof {
        assert forall|v: FlagDataView| #[trigger] envelope(v) == s@ implies r is Ok && r->Ok_0@ == v by {
            lemma_envelope_parts(v);
            lemma_header_shape(tag(v));
            let hv = header(tag(v));
            assert(inner@.subrange(0, hv.len() as int) =~= hv);
            if header("boolean"@).len() <= inner@.len() && inner@.subrange(0, header("boolean"@).len() as int) == header("boolean"@) {
                lemma_header_match(v, "boolean"@);
            } else if header("string"@).len() <= inner@.len() && inner@.subrange(0, header("string"@).len() as int) == header("string"@) {
                lemma_header_match(v, "string"@);
            } else if header("integer"@).len() <= inner@.len() && inner@.subrange(0, header("integer"@).len() as int) == header("integer"@) {
                lemma_header_match(v, "integer"@);
            } else if header("custom"@).len() <= inner@.len() && inner@.subrange(0, header("custom"@).len() as int) == header("custom"@) {
                lemma_header_match(v, "custom"@);
            } else {
                assert(false);
            }
        }
        if r is Ok {
            let w = r->Ok_0@;
            lemma_envelope_parts(w);
            assert(s@ =~= s@.drop_last().push('}'));
            assert(envelope(w) =~= envelope(w).drop_last().push('}'));
            assert(inner@ =~= header(tag(w)) + payload(w));
        }
    }
    r
}

/// The compact text that serde_json writes back for the JSON document `s`,
/// object keys in sorted order; `None` where `s` is not JSON.
pub uninterp spec fn compact_json_of(s: Seq<char>) -> Option<Seq<char>>;

/// The texts of an optional string.
pub open spec fn opt_text(r: Option<String>) -> Option<Seq<char>> {
    match r {
        Some(c) => Some(c@),
        None => None,
    }
}

/// Relies on serde_json::from_str into a serde_json::Value, then its
/// to_string: the document rewritten without spacing, object keys sorted (the
/// map is ordered by key without the preserve_order feature). An envelope as
/// `encode` writes it is already in that form.
#[verifier::external_body]
fn compact_json(s: &str) -> (r: Option<String>)
    ensures
        opt_text(r) == compact_json_of(s@),
        forall|v: FlagDataView| s@ == #[trigger] envelope(v) ==> (r is Some && r->Some_0@ == s@),
{
    serde_json::from_str::<serde_json::Value>(s).ok().map(|v| v.to_string())
}

/// `s` is a JSON rendering of the envelope of some value: any spacing, any
/// order of the two fields.
pub open spec fn is_envelope(s: Seq<char>) -> bool {
    exists|v: FlagDataView| compact_json_of(s) == Some(#[trigger] envelope(v))
}

/// Decodes a value from a JSON rendering of its envelope, whatever its spacing
/// and field order. An unknown discriminator, or a payload that does not fit
/// it, gives `DecodeError`.
pub fn decode(s: &str) -> (r: Result<FlagDataType, FeatureFlagError>)
    ensures
        r matches Ok(w) ==> compact_json_of(s@) == Some(envelope(w@)),
        forall|v: FlagDataView|
            compact_json_of(s@) == Some(#[trigger] envelope(v)) ==> (r is Ok && r->Ok_0@ == v),
        forall|v: FlagDataView| s@ == #[trigger] envelope(v) ==> (r is Ok && r->Ok_0@ == v),
        r is Err ==> r->Err_0 is DecodeError && !is_envelope(s@),
{
    match compact_json(s) {
        Some(c) => decode_compact(c.as_str()),
        None => Err(FeatureFlagError::DecodeError),
    }
}

/// Decoding what `encode` wrote for a value gives that value back, for every
/// variant.
pub fn round_trip(v: &FlagDataType) -> (r: Result<FlagDataType, FeatureFlagError>)
    ensures
        r matches Ok(w) && w@ == v@,
{
    let text = encode(v);
    decode(text.as_str())
}

} // verus!
