use vstd::prelude::*;

verus! {

/// The decimal digit character for one digit value.
pub open spec fn dec_digit(d: int) -> char
    recommends
        0 <= d < 10,
{
    if d == 0 {
        '0'
    } else if d == 1 {
        '1'
    } else if d == 2 {
        '2'
    } else if d == 3 {
        '3'
    } else if d == 4 {
        '4'
    } else if d == 5 {
        '5'
    } else if d == 6 {
        '6'
    } else if d == 7 {
        '7'
    } else if d == 8 {
        '8'
    } else {
        '9'
    }
}

/// The decimal digit string of a non-negative number, most significant
/// digit first.
pub open spec fn dec_digits(n: nat) -> Seq<char>
    decreases n,
{
    if n < 10 {
        seq![dec_digit(n as int)]
    } else {
        dec_digits(n / 10).push(dec_digit((n % 10) as int))
    }
}

/// The decimal text of an integer, as JSON renders numbers of these kinds.
pub open spec fn spec_dec(n: int) -> Seq<char> {
    if n < 0 {
        seq!['-'] + dec_digits((-n) as nat)
    } else {
        dec_digits(n as nat)
    }
}

/// The JSON text of the literal `null`.
pub open spec fn spec_null() -> Seq<char> {
    seq!['n', 'u', 'l', 'l']
}

/// The JSON text of a string value: quoted and escaped, a function of the
/// characters alone.
pub uninterp spec fn json_string_rep(s: Seq<char>) -> Seq<char>;

/// What parsing a text as a JSON string value yields: the characters, or
/// nothing when the text is not a JSON string.
pub uninterp spec fn json_parsed_string(s: Seq<char>) -> Option<Seq<char>>;

/// What parsing a text as an optional JSON string value yields.
pub uninterp spec fn json_parsed_opt_string(s: Seq<char>) -> Option<Option<Seq<char>>>;

/// What parsing a text as a JSON integer in signed 32-bit range yields.
pub uninterp spec fn json_parsed_i32(s: Seq<char>) -> Option<i32>;

/// What parsing a text as a JSON integer in unsigned 64-bit range yields.
pub uninterp spec fn json_parsed_u64(s: Seq<char>) -> Option<u64>;

/// Relies on `serde_json::to_string::<String>`: the quoted, escaped JSON
/// text of the characters alone, always opening with a quote; serializing
/// a string value never fails.
#[verifier::external_body]
pub(crate) fn json_encode_string(v: &String) -> (r: String)
    ensures
        r@ == json_string_rep(v@),
        r@.len() >= 2,
        r@[0] == '"',
{
    serde_json::to_string(v).unwrap()
}

/// Relies on `serde_json::to_string::<i32>`: the plain decimal text of the
/// number; serializing an integer never fails.
#[verifier::external_body]
pub(crate) fn json_encode_i32(v: i32) -> (r: String)
    ensures
        r@ == spec_dec(v as int),
{
    serde_json::to_string(&v).unwrap()
}

/// Relies on `serde_json::to_string::<u64>`: the plain decimal text of the
/// number; serializing an integer never fails.
#[verifier::external_body]
pub(crate) fn json_encode_u64(v: u64) -> (r: String)
    ensures
        r@ == spec_dec(v as int),
{
    serde_json::to_string(&v).unwrap()
}

/// Relies on `serde_json::from_str::<String>`: the outcome depends on the
/// characters alone, and parsing the JSON text of a string value yields
/// exactly that value.
#[verifier::external_body]
pub(crate) fn json_parse_string(s: &str) -> (r: Option<String>)
    ensures
        r is Some <==> json_parsed_string(s@) is Some,
        r is Some ==> Some((r->Some_0)@) == json_parsed_string(s@),
        forall|t: Seq<char>|
            s@ == json_string_rep(t) ==> r is Some && (r->Some_0)@ == t,
{
    serde_json::from_str::<String>(s).ok()
}

/// Relies on `serde_json::from_str::<Option<String>>`: the outcome
/// depends on the characters alone; the text `null` parses to the absent
/// value, and the JSON text of a string value parses to exactly that
/// value.
#[verifier::external_body]
pub(crate) fn json_parse_opt_string(s: &str) -> (r: Option<Option<String>>)
    ensures
        r is Some <==> json_parsed_opt_string(s@) is Some,
        r is Some && r->Some_0 is None ==> json_parsed_opt_string(s@) == Some(
            None::<Seq<char>>,
        ),
        r is Some && r->Some_0 is Some ==> json_parsed_opt_string(s@) == Some(
            Some((r->Some_0->Some_0)@),
        ),
        s@ == spec_null() ==> r == Some(None::<String>),
        forall|t: Seq<char>|
            s@ == json_string_rep(t) ==> r is Some && r->Some_0 is Some && (
            r->Some_0->Some_0)@ == t,
{
    serde_json::from_str::<Option<String>>(s).ok()
}

/// Relies on `serde_json::from_str::<i32>`: the outcome depends on the
/// characters alone, and the decimal text of a number in range parses to
/// exactly that number.
#[verifier::external_body]
pub(crate) fn json_parse_i32(s: &str) -> (r: Option<i32>)
    ensures
        r == json_parsed_i32(s@),
        forall|n: i32| s@ == spec_dec(n as int) ==> r == Some(n),
{
    serde_json::from_str::<i32>(s).ok()
}

/// Relies on `serde_json::from_str::<u64>`: the outcome depends on the
/// characters alone, and the decimal text of a number in range parses to
/// exactly that number.
#[verifier::external_body]
pub(crate) fn json_parse_u64(s: &str) -> (r: Option<u64>)
    ensures
        r == json_parsed_u64(s@),
        forall|n: u64| s@ == spec_dec(n as int) ==> r == Some(n),
{
    serde_json::from_str::<u64>(s).ok()
}

} // verus!
