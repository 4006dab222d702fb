use crate::encoding::{
    encode, encoded_text, is_encoded_char, is_unreserved_char, lemma_encoded_alphabet,
    lemma_unreserved_text_unchanged,
};
use crate::multisets::lemma_permutation_mapped;
use crate::params::{
    distinct_keys, entries_of, lemma_entries_permutation, lemma_permuted_pairs_same_map, map_of,
    Params,
};
use crate::error::FetchError;
use crate::text::{
    decimal_digits, decimal_string, decimal_text, digits_string, insert_sorted, join, joined,
    lemma_decimal_digits_injective, lemma_decimal_digits_shape, lemma_joined_starts_with_first,
    lemma_text_order_total, text_order,
};
use vstd::prelude::*;
use vstd::relations::*;
use vstd::string::*;

verus! {

/// One entry in canonical form: the encoded key, `=`, the encoded value.
pub open spec fn pair_text(pair: (Seq<char>, Seq<char>)) -> Seq<char> {
    encoded_text(pair.0) + seq!['='] + encoded_text(pair.1)
}

/// The canonical forms of the entries, in the entries' order.
pub open spec fn pair_texts(pairs: Seq<(Seq<char>, Seq<char>)>) -> Seq<Seq<char>> {
    Seq::new(pairs.len(), |i: int| pair_text(pairs[i]))
}

/// The canonical parameter string of a list of entries: their canonical
/// forms, sorted in ascending lexicographic order and joined with `&`.
pub open spec fn pairs_string(pairs: Seq<(Seq<char>, Seq<char>)>) -> Seq<char> {
    joined(pair_texts(pairs).sort_by(text_order()), seq!['&'])
}

/// The canonical parameter string of a mapping: it depends on the mapping
/// alone, not on the order in which its entries were given.
pub open spec fn parameter_string(params: Map<Seq<char>, Seq<char>>) -> Seq<char> {
    pairs_string(entries_of(params))
}

/// Two lists with the same entries, in whatever order, have the same
/// canonical parameter string.
pub proof fn lemma_pairs_string_permutation(
    a: Seq<(Seq<char>, Seq<char>)>,
    b: Seq<(Seq<char>, Seq<char>)>,
)
    requires
        a.to_multiset() == b.to_multiset(),
    ensures
        pairs_string(a) == pairs_string(b),
{
    let f = |p: (Seq<char>, Seq<char>)| pair_text(p);
    lemma_permutation_mapped(a, b, f);
    assert(pair_texts(a) =~= a.map_values(f));
    assert(pair_texts(b) =~= b.map_values(f));
    lemma_text_order_total();
    pair_texts(a).lemma_sort_by_ensures(text_order());
    pair_texts(b).lemma_sort_by_ensures(text_order());
    vstd::seq_lib::lemma_sorted_unique(
        pair_texts(a).sort_by(text_order()),
        pair_texts(b).sort_by(text_order()),
        text_order(),
    );
}

/// The canonical parameter string of a list of entries with distinct keys
/// is that of the mapping which the list stands for.
pub proof fn lemma_pairs_string_of_map(pairs: Seq<(Seq<char>, Seq<char>)>)
    requires
        distinct_keys(pairs),
    ensures
        pairs_string(pairs) == parameter_string(map_of(pairs)),
{
    lemma_entries_permutation(pairs);
    lemma_pairs_string_permutation(pairs, entries_of(map_of(pairs)));
}

/// Builds the canonical parameter string: every key and value is
/// percent-encoded, the `key=value` texts are sorted and joined with `&`.
pub fn make_parameter_string(params: &Params) -> (out: String)
    ensures
        out@ == parameter_string(params@),
        out@ == pairs_string(params.pairs()),
{
    proof {
        use_type_invariant(params);
        lemma_pairs_string_of_map(params.pairs());
    }
    let ghost pairs = params.pairs();
    let mut sorted: Vec<String> = Vec::new();
    let mut i: usize = 0;
    proof {
        assert(pair_texts(pairs.subrange(0, 0)) =~= Seq::<Seq<char>>::empty());
        assert(sorted.deep_view() =~= Seq::<Seq<char>>::empty());
    }
    while i < params.len()
        invariant
            i <= pairs.len(),
            pairs == params.pairs(),
            sorted_by(sorted.deep_view(), text_order()),
            sorted.deep_view().to_multiset() == pair_texts(
                pairs.subrange(0, i as int),
            ).to_multiset(),
        decreases pairs.len() - i,
    {
        let mut pair = encode(params.key_at(i));
        proof {
            reveal_strlit("=");
            assert("="@ =~= seq!['=']);
        }
        pair.append("=");
        let value = encode(params.value_at(i));
        pair.append(value.as_str());
        proof {
            assert(pair@ == pair_text(pairs[i as int]));
            let before = pair_texts(pairs.subrange(0, i as int));
            let after = pair_texts(pairs.subrange(0, i + 1));
            assert(after =~= before.push(pair@));
            vstd::seq_lib::to_multiset_build(before, pair@);
        }
        insert_sorted(&mut sorted, pair);
        i += 1;
    }
    proof {
        assert(pairs.subrange(0, i as int) == pairs);
        let wanted = pair_texts(pairs);
        lemma_text_order_total();
        wanted.lemma_sort_by_ensures(text_order());
        vstd::seq_lib::lemma_sorted_unique(
            sorted.deep_view(),
            wanted.sort_by(text_order()),
            text_order(),
        );
        reveal_strlit("&");
        assert("&"@ =~= seq!['&']);
    }
    join(&sorted, "&")
}

/// The signature base string: the encoded method, the encoded URL and the
/// encoded parameter string, joined with `&`.
pub open spec fn base_string(
    method: Seq<char>,
    url: Seq<char>,
    parameter_string: Seq<char>,
) -> Seq<char> {
    encoded_text(method) + seq!['&'] + encoded_text(url) + seq!['&'] + encoded_text(
        parameter_string,
    )
}

/// Builds the signature base string.
pub fn make_signature_base_string(method: &str, url: &str, parameter_string: &str) -> (out: String)
    ensures
        out@ == base_string(method@, url@, parameter_string@),
{
    proof {
        reveal_strlit("&");
        assert("&"@ =~= seq!['&']);
    }
    let mut out = encode(method);
    out.append("&");
    out.append(encode(url).as_str());
    out.append("&");
    out.append(encode(parameter_string).as_str());
    out
}

/// In a signature base string the two `&` that part the method, the URL and
/// the parameter string are the only characters that are neither `%` nor
/// unreserved: in all three parts every reserved character is encoded.
pub proof fn lemma_base_string_shape(
    method: Seq<char>,
    url: Seq<char>,
    parameter_string: Seq<char>,
)
    ensures
        ({
            let base = base_string(method, url, parameter_string);
            let first = encoded_text(method).len() as int;
            let second = first + 1 + encoded_text(url).len();
            &&& base.len() == second + 1 + encoded_text(parameter_string).len()
            &&& base[first] == '&'
            &&& base[second] == '&'
            &&& forall|i: int|
                0 <= i < base.len() && i != first && i != second ==> is_encoded_char(
                    #[trigger] base[i],
                )
        }),
{
    let m = encoded_text(method);
    let u = encoded_text(url);
    let p = encoded_text(parameter_string);
    let base = base_string(method, url, parameter_string);
    let first = m.len() as int;
    let second = first + 1 + u.len();
    lemma_encoded_alphabet(vstd::utf8::encode_utf8(method));
    lemma_encoded_alphabet(vstd::utf8::encode_utf8(url));
    lemma_encoded_alphabet(vstd::utf8::encode_utf8(parameter_string));
    assert forall|i: int| 0 <= i < base.len() && i != first && i != second implies is_encoded_char(
        #[trigger] base[i],
    ) by {
        if i < first {
            assert(base[i] == m[i]);
        } else if i < second {
            assert(base[i] == u[i - first - 1]);
        } else {
            assert(base[i] == p[i - second - 1]);
        }
    }
}

/// The signing key: the encoded consumer secret, `&`, the encoded token
/// secret.
pub open spec fn signing_key(consumer_secret: Seq<char>, token_secret: Seq<char>) -> Seq<char> {
    encoded_text(consumer_secret) + seq!['&'] + encoded_text(token_secret)
}

/// Builds the signing key.
pub fn make_signature_key(oauth_consumer_secret: &str, oauth_token_secret: &str) -> (out: String)
    ensures
        out@ == signing_key(oauth_consumer_secret@, oauth_token_secret@),
{
    proof {
        reveal_strlit("&");
        assert("&"@ =~= seq!['&']);
    }
    let mut out = encode(oauth_consumer_secret);
    out.append("&");
    out.append(encode(oauth_token_secret).as_str());
    out
}

/// The HMAC-SHA1 digest of a message under a key.
pub uninterp spec fn hmac_sha1_digest(key: Seq<u8>, message: Seq<u8>) -> Seq<u8>;

/// The base64 text of a byte string, in the standard alphabet with padding.
pub uninterp spec fn base64_text(bytes: Seq<u8>) -> Seq<char>;

/// Calls `hmac_sha1::hmac_sha1`, which returns the HMAC-SHA1 digest of the
/// message under the key as an array of 20 bytes. It takes a key of any
/// length.
#[verifier::external_body]
fn hmac_digest(key: &[u8], message: &[u8]) -> (digest: Vec<u8>)
    ensures
        digest@ == hmac_sha1_digest(key@, message@),
        digest@.len() == 20,
{
    hmac_sha1::hmac_sha1(key, message).to_vec()
}

/// One of the 64 characters of the standard base64 alphabet.
pub open spec fn is_base64_char(c: char) -> bool {
    ('A' <= c && c <= 'Z') || ('a' <= c && c <= 'z') || ('0' <= c && c <= '9') || c == '+'
        || c == '/'
}

/// The number of `=` that end the base64 text of so many bytes.
pub open spec fn base64_padding(bytes: nat) -> nat {
    ((3 - bytes % 3) % 3) as nat
}

/// The text has the shape of the base64 text of so many bytes: four
/// characters for every three bytes begun, the padding made of `=`, and all
/// before it of the alphabet.
pub open spec fn has_base64_shape(text: Seq<char>, bytes: nat) -> bool {
    let padding = base64_padding(bytes);
    &&& text.len() == bytes / 3 * 4 + (if bytes % 3 > 0 {
        4nat
    } else {
        0nat
    })
    &&& forall|i: int| 0 <= i < text.len() - padding ==> is_base64_char(#[trigger] text[i])
    &&& forall|i: int| text.len() - padding <= i < text.len() ==> #[trigger] text[i] == '='
}

/// Calls `base64::encode`, which encodes with the standard configuration:
/// the standard alphabet, and `=` as padding up to a multiple of four
/// characters. The crate fails only when the length of the output does not
/// fit a `usize`, which the precondition rules out.
#[verifier::external_body]
fn base64_encode(bytes: &[u8]) -> (text: String)
    requires
        bytes@.len() / 3 * 4 + 4 <= usize::MAX,
    ensures
        text@ == base64_text(bytes@),
        has_base64_shape(text@, bytes@.len()),
{
    base64::encode(bytes)
}

/// The signature of a text under a key: the base64 text of the HMAC-SHA1
/// digest of their UTF-8 bytes.
pub open spec fn signature_text(key: Seq<char>, data: Seq<char>) -> Seq<char> {
    base64_text(hmac_sha1_digest(vstd::utf8::encode_utf8(key), vstd::utf8::encode_utf8(data)))
}

/// The text has the shape of a signature: 27 characters of the base64
/// alphabet and one `=`.
pub open spec fn is_signature_shaped(text: Seq<char>) -> bool {
    &&& text.len() == 28
    &&& forall|i: int| 0 <= i < 27 ==> is_base64_char(#[trigger] text[i])
    &&& text[27] == '='
}

/// Signs `data` with `key`.
pub fn encode_signature(key: &str, data: &str) -> (out: String)
    ensures
        out@ == signature_text(key@, data@),
        is_signature_shaped(out@),
{
    let digest = hmac_digest(key.as_bytes(), data.as_bytes());
    base64_encode(digest.as_slice())
}

/// One field of the header: the name, `=`, and the encoded value in double
/// quotes.
pub open spec fn header_field(name: Seq<char>, value: Seq<char>) -> Seq<char> {
    name + seq!['=', '"'] + encoded_text(value) + seq!['"']
}

/// The value of the `Authorization` header: `OAuth `, then the seven fields
/// in their fixed order, separated by a comma and a space.
pub open spec fn header_text(
    nonce: Seq<char>,
    signature_method: Seq<char>,
    timestamp: Seq<char>,
    consumer_key: Seq<char>,
    signature: Seq<char>,
    version: Seq<char>,
    token: Seq<char>,
) -> Seq<char> {
    "OAuth "@ + joined(
        seq![
            header_field("oauth_nonce"@, nonce),
            header_field("oauth_signature_method"@, signature_method),
            header_field("oauth_timestamp"@, timestamp),
            header_field("oauth_consumer_key"@, consumer_key),
            header_field("oauth_signature"@, signature),
            header_field("oauth_version"@, version),
            header_field("oauth_token"@, token),
        ],
        ", "@,
    )
}

/// Builds one field of the header.
pub fn make_header_field(name: &str, value: &str) -> (out: String)
    ensures
        out@ == header_field(name@, value@),
{
    proof {
        reveal_strlit("=\"");
        reveal_strlit("\"");
        assert("=\""@ =~= seq!['=', '"']);
        assert("\""@ =~= seq!['"']);
    }
    let mut out = name.to_owned();
    out.append("=\"");
    out.append(encode(value).as_str());
    out.append("\"");
    out
}

/// Builds the value of the `Authorization` header from the values of its
/// seven fields.
pub fn make_auth_header(
    nonce: &str,
    signature_method: &str,
    timestamp: &str,
    consumer_key: &str,
    signature: &str,
    version: &str,
    token: &str,
) -> (out: String)
    ensures
        out@ == header_text(
            nonce@,
            signature_method@,
            timestamp@,
            consumer_key@,
            signature@,
            version@,
            token@,
        ),
{
    let mut fields: Vec<String> = Vec::new();
    fields.push(make_header_field("oauth_nonce", nonce));
    fields.push(make_header_field("oauth_signature_method", signature_method));
    fields.push(make_header_field("oauth_timestamp", timestamp));
    fields.push(make_header_field("oauth_consumer_key", consumer_key));
    fields.push(make_header_field("oauth_signature", signature));
    fields.push(make_header_field("oauth_version", version));
    fields.push(make_header_field("oauth_token", token));
    proof {
        assert(fields.deep_view() =~= seq![
            header_field("oauth_nonce"@, nonce@),
            header_field("oauth_signature_method"@, signature_method@),
            header_field("oauth_timestamp"@, timestamp@),
            header_field("oauth_consumer_key"@, consumer_key@),
            header_field("oauth_signature"@, signature@),
            header_field("oauth_version"@, version@),
            header_field("oauth_token"@, token@),
        ]);
    }
    let list = join(&fields, ", ");
    let mut out = "OAuth ".to_owned();
    out.append(list.as_str());
    out
}

/// The six protocol parameters of a request.
pub open spec fn protocol_params(
    consumer_key: Seq<char>,
    token: Seq<char>,
    timestamp: Seq<char>,
    nonce: Seq<char>,
) -> Map<Seq<char>, Seq<char>> {
    Map::<Seq<char>, Seq<char>>::empty().insert("oauth_consumer_key"@, consumer_key).insert(
        "oauth_nonce"@,
        nonce,
    ).insert("oauth_timestamp"@, timestamp).insert("oauth_signature_method"@, "HMAC-SHA1"@).insert(
        "oauth_version"@,
        "1.0"@,
    ).insert("oauth_token"@, token)
}

/// Everything that is signed: the protocol parameters and the caller's
/// parameters in one mapping. A request is signed only where the two have no
/// name in common.
pub open spec fn signed_params(
    consumer_key: Seq<char>,
    token: Seq<char>,
    timestamp: Seq<char>,
    nonce: Seq<char>,
    body: Map<Seq<char>, Seq<char>>,
) -> Map<Seq<char>, Seq<char>> {
    protocol_params(consumer_key, token, timestamp, nonce).union_prefer_right(body)
}

/// The signature of a request.
pub open spec fn signature_of(
    url: Seq<char>,
    method: Seq<char>,
    consumer_key: Seq<char>,
    token: Seq<char>,
    consumer_secret: Seq<char>,
    token_secret: Seq<char>,
    body: Map<Seq<char>, Seq<char>>,
    timestamp: Seq<char>,
    nonce: Seq<char>,
) -> Seq<char> {
    signature_text(
        signing_key(consumer_secret, token_secret),
        base_string(
            method,
            url,
            parameter_string(signed_params(consumer_key, token, timestamp, nonce, body)),
        ),
    )
}

/// The `Authorization` header of a request: the nonce, the method
/// `HMAC-SHA1`, the timestamp, the consumer key, the signature, the version
/// `1.0` and the token.
pub open spec fn auth_header_of(
    url: Seq<char>,
    method: Seq<char>,
    consumer_key: Seq<char>,
    token: Seq<char>,
    consumer_secret: Seq<char>,
    token_secret: Seq<char>,
    body: Map<Seq<char>, Seq<char>>,
    timestamp: Seq<char>,
    nonce: Seq<char>,
) -> Seq<char> {
    header_text(
        nonce,
        "HMAC-SHA1"@,
        timestamp,
        consumer_key,
        signature_of(
            url,
            method,
            consumer_key,
            token,
            consumer_secret,
            token_secret,
            body,
            timestamp,
            nonce,
        ),
        "1.0"@,
        token,
    )
}

/// The order in which the caller's parameters are given plays no part in
/// the signature, nor in the header: two lists of the same entries give the
/// same of both.
pub proof fn lemma_signature_ignores_order(
    url: Seq<char>,
    method: Seq<char>,
    consumer_key: Seq<char>,
    token: Seq<char>,
    consumer_secret: Seq<char>,
    token_secret: Seq<char>,
    a: Seq<(Seq<char>, Seq<char>)>,
    b: Seq<(Seq<char>, Seq<char>)>,
    timestamp: Seq<char>,
    nonce: Seq<char>,
)
    requires
        distinct_keys(a),
        distinct_keys(b),
        a.to_multiset() == b.to_multiset(),
    ensures
        signature_of(
            url,
            method,
            consumer_key,
            token,
            consumer_secret,
            token_secret,
            map_of(a),
            timestamp,
            nonce,
        ) == signature_of(
            url,
            method,
            consumer_key,
            token,
            consumer_secret,
            token_secret,
            map_of(b),
            timestamp,
            nonce,
        ),
        auth_header_of(
            url,
            method,
            consumer_key,
            token,
            consumer_secret,
            token_secret,
            map_of(a),
            timestamp,
            nonce,
        ) == auth_header_of(
            url,
            method,
            consumer_key,
            token,
            consumer_secret,
            token_secret,
            map_of(b),
            timestamp,
            nonce,
        ),
{
    lemma_permuted_pairs_same_map(a, b);
}

/// The caller's parameters use the name of a protocol parameter.
pub open spec fn has_protocol_key(body: Map<Seq<char>, Seq<char>>) -> bool {
    ||| body.contains_key("oauth_consumer_key"@)
    ||| body.contains_key("oauth_nonce"@)
    ||| body.contains_key("oauth_timestamp"@)
    ||| body.contains_key("oauth_signature_method"@)
    ||| body.contains_key("oauth_version"@)
    ||| body.contains_key("oauth_token"@)
}

/// Tells whether the caller's parameters use the name of a protocol
/// parameter. Such a request is not signed.
pub fn uses_reserved_key(body: &Params) -> (r: bool)
    ensures
        r == has_protocol_key(body@),
{
    body.contains_key("oauth_consumer_key") || body.contains_key("oauth_nonce")
        || body.contains_key("oauth_timestamp") || body.contains_key("oauth_signature_method")
        || body.contains_key("oauth_version") || body.contains_key("oauth_token")
}

/// The names of the six protocol parameters differ from each other.
pub proof fn lemma_protocol_keys_differ()
    ensures
        "oauth_consumer_key"@ != "oauth_nonce"@,
        "oauth_consumer_key"@ != "oauth_timestamp"@,
        "oauth_consumer_key"@ != "oauth_signature_method"@,
        "oauth_consumer_key"@ != "oauth_version"@,
        "oauth_consumer_key"@ != "oauth_token"@,
        "oauth_nonce"@ != "oauth_timestamp"@,
        "oauth_nonce"@ != "oauth_signature_method"@,
        "oauth_nonce"@ != "oauth_version"@,
        "oauth_nonce"@ != "oauth_token"@,
        "oauth_timestamp"@ != "oauth_signature_method"@,
        "oauth_timestamp"@ != "oauth_version"@,
        "oauth_timestamp"@ != "oauth_token"@,
        "oauth_signature_method"@ != "oauth_version"@,
        "oauth_signature_method"@ != "oauth_token"@,
        "oauth_version"@ != "oauth_token"@,
{
    reveal_strlit("oauth_consumer_key");
    reveal_strlit("oauth_nonce");
    reveal_strlit("oauth_timestamp");
    reveal_strlit("oauth_signature_method");
    reveal_strlit("oauth_version");
    reveal_strlit("oauth_token");
    assert("oauth_consumer_key"@.len() == 18);
    assert("oauth_nonce"@.len() == 11);
    assert("oauth_timestamp"@.len() == 15);
    assert("oauth_signature_method"@.len() == 22);
    assert("oauth_version"@.len() == 13);
    assert("oauth_token"@.len() == 11);
    assert("oauth_nonce"@[6] == 'n');
    assert("oauth_token"@[6] == 't');
}

/// Where the caller's parameters use none of the protocol's names, each
/// protocol parameter is signed with the value that the header carries.
pub proof fn lemma_signed_protocol_values(
    consumer_key: Seq<char>,
    token: Seq<char>,
    timestamp: Seq<char>,
    nonce: Seq<char>,
    body: Map<Seq<char>, Seq<char>>,
)
    requires
        !has_protocol_key(body),
    ensures
        ({
            let signed = signed_params(consumer_key, token, timestamp, nonce, body);
            &&& signed["oauth_consumer_key"@] == consumer_key
            &&& signed["oauth_nonce"@] == nonce
            &&& signed["oauth_timestamp"@] == timestamp
            &&& signed["oauth_signature_method"@] == "HMAC-SHA1"@
            &&& signed["oauth_version"@] == "1.0"@
            &&& signed["oauth_token"@] == token
            &&& forall|key: Seq<char>| #[trigger]
                body.contains_key(key) ==> signed.contains_key(key) && signed[key] == body[key]
        }),
{
    lemma_protocol_keys_differ();
}

/// A signature and the `Authorization` header that carries it.
pub struct Signature {
    pub signature: String,
    pub auth_header: String,
}

/// Signs a request at a given timestamp and with a given nonce. A request
/// whose parameters use the name of a protocol parameter is refused, and
/// nothing is signed. The signature and the header depend on the arguments
/// alone, and of the caller's parameters only on the mapping, not on the
/// order of its entries.
pub fn sign_with(
    url: &str,
    method: &str,
    api_key: &str,
    access_token: &str,
    api_key_secret: &str,
    access_token_secret: &str,
    body: &Params,
    timestamp: &str,
    nonce: &str,
) -> (r: Result<Signature, FetchError>)
    ensures
        match r {
            Ok(sig) => {
                &&& !has_protocol_key(body@)
                &&& is_signature_shaped(sig.signature@)
                &&& sig.signature@ == signature_of(
                    url@,
                    method@,
                    api_key@,
                    access_token@,
                    api_key_secret@,
                    access_token_secret@,
                    body@,
                    timestamp@,
                    nonce@,
                )
                &&& sig.auth_header@ == auth_header_of(
                    url@,
                    method@,
                    api_key@,
                    access_token@,
                    api_key_secret@,
                    access_token_secret@,
                    body@,
                    timestamp@,
                    nonce@,
                )
            },
            Err(error) => has_protocol_key(body@) && error == FetchError::Signing,
        },
{
    if uses_reserved_key(body) {
        return Err(FetchError::Signing);
    }
    let mut params = Params::new();
    params.insert("oauth_consumer_key", api_key);
    params.insert("oauth_nonce", nonce);
    params.insert("oauth_timestamp", timestamp);
    params.insert("oauth_signature_method", "HMAC-SHA1");
    params.insert("oauth_version", "1.0");
    params.insert("oauth_token", access_token);
    params.extend(body);
    assert(params@ == signed_params(api_key@, access_token@, timestamp@, nonce@, body@));

    let parameter_string = make_parameter_string(&params);
    let signature_base_string = make_signature_base_string(method, url, parameter_string.as_str());
    let signature_key = make_signature_key(api_key_secret, access_token_secret);
    let signature = encode_signature(signature_key.as_str(), signature_base_string.as_str());

    let auth_header = make_auth_header(
        nonce,
        "HMAC-SHA1",
        timestamp,
        api_key,
        signature.as_str(),
        "1.0",
        access_token,
    );
    Ok(Signature { signature, auth_header })
}

/// The nonce of the request with the given number, signed at the given
/// second: the second in decimal, a dot, and the number in decimal.
pub open spec fn nonce_text(seconds: int, issued: nat) -> Seq<char> {
    decimal_text(seconds) + seq!['.'] + decimal_digits(issued)
}

/// Requests with different numbers have different nonces, whatever the
/// seconds at which they are signed.
pub proof fn lemma_nonce_text_differs(seconds: int, issued: nat, later: int, other: nat)
    requires
        issued != other,
    ensures
        nonce_text(seconds, issued) != nonce_text(later, other),
{
    let first = nonce_text(seconds, issued);
    let second = nonce_text(later, other);
    let a = decimal_digits(issued);
    let b = decimal_digits(other);
    lemma_decimal_digits_shape(issued);
    lemma_decimal_digits_shape(other);
    if first == second {
        let n = first.len() as int;
        assert(first.subrange(n - a.len(), n) =~= a);
        assert(second.subrange(n - b.len(), n) =~= b);
        assert(first[n - a.len() - 1] == '.');
        assert(second[n - b.len() - 1] == '.');
        if a.len() == b.len() {
            lemma_decimal_digits_injective(issued, other);
        } else if a.len() < b.len() {
            let k = n - a.len() - 1;
            assert(second[k] == b[k - (n - b.len())]);
        } else {
            let k = n - b.len() - 1;
            assert(first[k] == a[k - (n - a.len())]);
        }
        assert(false);
    }
}

/// A nonce holds digits, `-` and `.` only, so that the encoding leaves it as
/// it is.
pub proof fn lemma_nonce_text_plain(seconds: int, issued: nat)
    ensures
        forall|i: int|
            0 <= i < nonce_text(seconds, issued).len() ==> is_unreserved_char(
                #[trigger] nonce_text(seconds, issued)[i],
            ),
        encoded_text(nonce_text(seconds, issued)) == nonce_text(seconds, issued),
{
    let text = nonce_text(seconds, issued);
    let stamp = decimal_text(seconds);
    let number = decimal_digits(issued);
    lemma_decimal_digits_shape(issued);
    if seconds < 0 {
        lemma_decimal_digits_shape((-seconds) as nat);
    } else {
        lemma_decimal_digits_shape(seconds as nat);
    }
    assert forall|i: int| 0 <= i < text.len() implies is_unreserved_char(#[trigger] text[i]) by {
        if i < stamp.len() {
            assert(text[i] == stamp[i]);
            if seconds < 0 && i > 0 {
                assert(stamp[i] == decimal_digits((-seconds) as nat)[i - 1]);
            }
        } else if i == stamp.len() {
            assert(text[i] == '.');
        } else {
            assert(text[i] == number[i - stamp.len() - 1]);
        }
    }
    lemma_unreserved_text_unchanged(text);
}

/// Requests with different numbers carry different headers, whatever the
/// seconds at which they are signed and whatever the other six fields of
/// each header hold (`first` and `second`, in the header's order).
pub proof fn lemma_headers_differ(
    seconds: int,
    issued: nat,
    later: int,
    other: nat,
    first: (Seq<char>, Seq<char>, Seq<char>, Seq<char>, Seq<char>, Seq<char>),
    second: (Seq<char>, Seq<char>, Seq<char>, Seq<char>, Seq<char>, Seq<char>),
)
    requires
        issued != other,
    ensures
        header_text(
            nonce_text(seconds, issued),
            first.0,
            first.1,
            first.2,
            first.3,
            first.4,
            first.5,
        ) != header_text(
            nonce_text(later, other),
            second.0,
            second.1,
            second.2,
            second.3,
            second.4,
            second.5,
        ),
{
    let a = nonce_text(seconds, issued);
    let b = nonce_text(later, other);
    let x = header_text(a, first.0, first.1, first.2, first.3, first.4, first.5);
    let y = header_text(b, second.0, second.1, second.2, second.3, second.4, second.5);
    lemma_nonce_text_differs(seconds, issued, later, other);
    lemma_nonce_text_plain(seconds, issued);
    lemma_nonce_text_plain(later, other);
    let lead = "OAuth "@ + "oauth_nonce"@ + seq!['=', '"'];
    lemma_header_starts_with_nonce(a, first.0, first.1, first.2, first.3, first.4, first.5);
    lemma_header_starts_with_nonce(b, second.0, second.1, second.2, second.3, second.4, second.5);
    if x == y {
        let n = lead.len() as int;
        if a.len() == b.len() {
            assert(a =~= x.subrange(n, n + a.len()));
            assert(b =~= y.subrange(n, n + b.len()));
        } else if a.len() < b.len() {
            assert(x[n + a.len()] == '"');
            assert(y[n + a.len()] == b[a.len() as int]);
            assert(is_unreserved_char(b[a.len() as int]));
        } else {
            assert(y[n + b.len()] == '"');
            assert(x[n + b.len()] == a[b.len() as int]);
            assert(is_unreserved_char(a[b.len() as int]));
        }
        assert(false);
    }
}

/// A header begins with `OAuth oauth_nonce="`, the encoded nonce, and a
/// double quote.
pub proof fn lemma_header_starts_with_nonce(
    nonce: Seq<char>,
    signature_method: Seq<char>,
    timestamp: Seq<char>,
    consumer_key: Seq<char>,
    signature: Seq<char>,
    version: Seq<char>,
    token: Seq<char>,
)
    ensures
        ({
            let header = header_text(
                nonce,
                signature_method,
                timestamp,
                consumer_key,
                signature,
                version,
                token,
            );
            let lead = "OAuth "@ + "oauth_nonce"@ + seq!['=', '"'];
            let value = encoded_text(nonce);
            let at = lead.len() as int;
            let end = at + value.len();
            &&& header.len() > end
            &&& header.subrange(0, at) == lead
            &&& header.subrange(at, end) == value
            &&& header[end] == '"'
        }),
{
    let fields = seq![
        header_field("oauth_nonce"@, nonce),
        header_field("oauth_signature_method"@, signature_method),
        header_field("oauth_timestamp"@, timestamp),
        header_field("oauth_consumer_key"@, consumer_key),
        header_field("oauth_signature"@, signature),
        header_field("oauth_version"@, version),
        header_field("oauth_token"@, token),
    ];
    let list = joined(fields, ", "@);
    let header = "OAuth "@ + list;
    let lead = "OAuth "@ + "oauth_nonce"@ + seq!['=', '"'];
    let value = encoded_text(nonce);
    let field = fields[0];
    lemma_joined_starts_with_first(fields, ", "@);
    assert(field == "oauth_nonce"@ + seq!['=', '"'] + value + seq!['"']);
    let start = "OAuth "@.len() as int;
    let at = lead.len() as int;
    let end = at + value.len();
    let name = "oauth_nonce"@.len() as int;
    assert(at == start + name + 2);
    assert(field.len() == name + 2 + value.len() + 1);
    assert forall|i: int| 0 <= i < field.len() implies header[start + i] == field[i] by {
        assert(list.subrange(0, field.len() as int)[i] == list[i]);
    }
    assert(header.subrange(0, at) =~= lead) by {
        assert forall|i: int| 0 <= i < at implies header[i] == lead[i] by {
            if i >= start {
                assert(header[start + (i - start)] == field[i - start]);
            }
        }
    }
    assert(header.subrange(at, end) =~= value) by {
        assert forall|i: int| 0 <= i < value.len() implies header[at + i] == value[i] by {
            let k = name + 2 + i;
            assert(header[start + k] == field[k]);
        }
    }
    assert(header[end] == '"') by {
        let k = name + 2 + value.len();
        assert(header[start + k] == field[k]);
    }
}

/// Hands out the numbers from which nonces are made, each number once.
/// Its view is the count of the numbers handed out, which is the number
/// that comes next.
pub struct NonceSource {
    issued: u64,
}

impl View for NonceSource {
    type V = nat;

    closed spec fn view(&self) -> nat {
        self.issued as nat
    }
}

impl NonceSource {
    /// A source that has handed out nothing yet.
    pub fn new() -> (r: NonceSource)
        ensures
            r@ == 0,
    {
        NonceSource { issued: 0 }
    }

    /// A source that goes on after `issued` numbers.
    pub fn resuming_after(issued: u64) -> (r: NonceSource)
        ensures
            r@ == issued,
    {
        NonceSource { issued }
    }

    /// The count of the numbers handed out.
    pub fn issued(&self) -> (n: u64)
        ensures
            n == self@,
    {
        self.issued
    }

    /// Tells whether every number was handed out.
    pub fn is_exhausted(&self) -> (r: bool)
        ensures
            r == (self@ == u64::MAX),
    {
        self.issued == u64::MAX
    }

    /// The nonce of the next request, signed at the given second. The
    /// number that it is made from is not handed out again.
    pub fn next_nonce(&mut self, seconds: i64) -> (r: Option<String>)
        ensures
            match r {
                Some(nonce) => {
                    &&& old(self)@ < u64::MAX
                    &&& final(self)@ == old(self)@ + 1
                    &&& nonce@ == nonce_text(seconds as int, old(self)@)
                },
                None => old(self)@ == u64::MAX && final(self)@ == old(self)@,
            },
    {
        if self.issued == u64::MAX {
            return None;
        }
        let mut nonce = decimal_string(seconds);
        proof {
            reveal_strlit(".");
            assert("."@ =~= seq!['.']);
        }
        nonce.append(".");
        nonce.append(digits_string(self.issued).as_str());
        self.issued = self.issued + 1;
        Some(nonce)
    }
}

/// The signature and the header are those of the request with the given
/// number at the given second: the timestamp is the second in decimal, and
/// the nonce is made of the second and the number.
#[verifier::opaque]
pub open spec fn signed_at(
    signature: Seq<char>,
    auth_header: Seq<char>,
    url: Seq<char>,
    method: Seq<char>,
    consumer_key: Seq<char>,
    token: Seq<char>,
    consumer_secret: Seq<char>,
    token_secret: Seq<char>,
    body: Map<Seq<char>, Seq<char>>,
    seconds: i64,
    issued: nat,
) -> bool {
    let timestamp = decimal_text(seconds as int);
    let nonce = nonce_text(seconds as int, issued);
    &&& signature == signature_of(
        url,
        method,
        consumer_key,
        token,
        consumer_secret,
        token_secret,
        body,
        timestamp,
        nonce,
    )
    &&& auth_header == auth_header_of(
        url,
        method,
        consumer_key,
        token,
        consumer_secret,
        token_secret,
        body,
        timestamp,
        nonce,
    )
}

/// Two requests that were signed with different numbers carry different
/// headers: no nonce is used twice, whatever the seconds at which the two
/// were signed and whatever the requests are. Of each request, the first
/// pair is the signature and the header; the request is the URL, the method
/// and the parameters; the credentials are the consumer key, the token, the
/// consumer secret and the token secret.
pub proof fn lemma_signed_headers_differ(
    first: (Seq<char>, Seq<char>),
    first_request: (Seq<char>, Seq<char>, Map<Seq<char>, Seq<char>>),
    first_credentials: (Seq<char>, Seq<char>, Seq<char>, Seq<char>),
    first_second: i64,
    first_number: nat,
    second: (Seq<char>, Seq<char>),
    second_request: (Seq<char>, Seq<char>, Map<Seq<char>, Seq<char>>),
    second_credentials: (Seq<char>, Seq<char>, Seq<char>, Seq<char>),
    second_second: i64,
    second_number: nat,
)
    requires
        signed_at(
            first.0,
            first.1,
            first_request.0,
            first_request.1,
            first_credentials.0,
            first_credentials.1,
            first_credentials.2,
            first_credentials.3,
            first_request.2,
            first_second,
            first_number,
        ),
        signed_at(
            second.0,
            second.1,
            second_request.0,
            second_request.1,
            second_credentials.0,
            second_credentials.1,
            second_credentials.2,
            second_credentials.3,
            second_request.2,
            second_second,
            second_number,
        ),
        first_number != second_number,
    ensures
        first.1 != second.1,
{
    reveal(signed_at);
    lemma_headers_differ(
        first_second as int,
        first_number,
        second_second as int,
        second_number,
        (
            "HMAC-SHA1"@,
            decimal_text(first_second as int),
            first_credentials.0,
            first.0,
            "1.0"@,
            first_credentials.1,
        ),
        (
            "HMAC-SHA1"@,
            decimal_text(second_second as int),
            second_credentials.0,
            second.0,
            "1.0"@,
            second_credentials.1,
        ),
    );
}

/// Calls `chrono::Utc::now` and `DateTime::timestamp`: the seconds that the
/// system clock counts since the Unix epoch. Nothing is promised of the
/// value, which differs from call to call. The crate gives up where the
/// clock stands before the epoch.
#[verifier::external_body]
fn unix_time() -> (seconds: i64) {
    chrono::Utc::now().timestamp()
}

/// Signs a request at the present time. The timestamp is the clock's
/// seconds since the epoch in decimal. The nonce is made of the seconds and
/// of the next number of the source, which no other request of that source
/// gets. A request whose parameters use the name of a protocol parameter is
/// refused, and so is any request once the source has no number left; the
/// source then stays as it is.
pub fn make_signature(
    url: &str,
    method: &str,
    api_key: &String,
    access_token: &String,
    api_key_secret: &String,
    access_token_secret: &String,
    body: &Params,
    nonces: &mut NonceSource,
) -> (r: Result<Signature, FetchError>)
    ensures
        match r {
            Ok(sig) => {
                &&& !has_protocol_key(body@)
                &&& old(nonces)@ < u64::MAX
                &&& final(nonces)@ == old(nonces)@ + 1
                &&& exists|seconds: i64| #[trigger]
                    signed_at(
                        sig.signature@,
                        sig.auth_header@,
                        url@,
                        method@,
                        api_key@,
                        access_token@,
                        api_key_secret@,
                        access_token_secret@,
                        body@,
                        seconds,
                        old(nonces)@,
                    )
            },
            Err(error) => {
                &&& error == FetchError::Signing
                &&& has_protocol_key(body@) || old(nonces)@ == u64::MAX
                &&& final(nonces)@ == old(nonces)@
            },
        },
{
    if uses_reserved_key(body) {
        return Err(FetchError::Signing);
    }
    let seconds = unix_time();
    let timestamp = decimal_string(seconds);
    let nonce = match nonces.next_nonce(seconds) {
        Some(nonce) => nonce,
        None => {
            return Err(FetchError::Signing);
        },
    };
    let signed = sign_with(
        url,
        method,
        api_key.as_str(),
        access_token.as_str(),
        api_key_secret.as_str(),
        access_token_secret.as_str(),
        body,
        timestamp.as_str(),
        nonce.as_str(),
    );
    match signed {
        Ok(sig) => {
            proof {
                reveal(signed_at);
                assert(signed_at(
                    sig.signature@,
                    sig.auth_header@,
                    url@,
                    method@,
                    api_key@,
                    access_token@,
                    api_key_secret@,
                    access_token_secret@,
                    body@,
                    seconds,
                    old(nonces)@,
                ));
            }
            Ok(sig)
        },
        Err(error) => Err(error),
    }
}

} // verus!
