//! Who may use the dashboard: HTTP basic authentication, and the refusal of requests that
//! another site made the browser send.

use base64::engine::general_purpose::STANDARD;
use base64::Engine;
use subtle::ConstantTimeEq;
use vstd::prelude::*;
use vstd::utf8::{decode_utf8, encode_utf8, valid_utf8};

use crate::headers::{is_header_text, reads_as_text, text_from_utf8};
use crate::model::UserId;
use crate::text::{
    ascii, chars_of, find_char, first_index, is_word, lemma_first_index, lemma_first_index_unique,
    said, same_text,
};

verus! {

/// What `base64`'s standard engine decodes bytes to: nothing where they are no padded
/// base64 of the standard alphabet.
pub uninterp spec fn base64_decoded(encoded: Seq<u8>) -> Option<Seq<u8>>;

/// Calls `Engine::decode` of `base64::engine::general_purpose::STANDARD`. What comes back
/// depends on the bytes alone. Which of the decoder's errors a refusal was is dropped.
#[verifier::external_body]
fn decode_base64(encoded: &[u8]) -> (decoded: Option<Vec<u8>>)
    ensures
        decoded is None <==> base64_decoded(encoded@) is None,
        decoded is Some ==> base64_decoded(encoded@) == Some(decoded->Some_0@),
{
    STANDARD.decode(encoded).ok()
}

/// Calls `subtle::ConstantTimeEq::ct_eq` on two byte slices, which tells whether they are
/// equal: of one length, and the same at every place. How long it takes is left unsaid.
#[verifier::external_body]
fn constant_time_eq(left: &[u8], right: &[u8]) -> (equal: bool)
    ensures
        equal == (left@ == right@),
{
    left.ct_eq(right).into()
}

/// The credentials some bytes are: the text before the first colon, and the text after it.
pub open spec fn credentials_in(decoded: Seq<u8>) -> Option<(Seq<char>, Seq<char>)> {
    let text = decode_utf8(decoded);
    let colon = first_index(text, ':');
    if valid_utf8(decoded) && colon < text.len() {
        Some((text.take(colon), text.skip(colon + 1)))
    } else {
        None
    }
}

/// The scheme an authorization header must name, with the space that ends it.
pub open spec fn scheme() -> Seq<u8> {
    ascii("Basic "@)
}

/// What an authorization header holds behind its scheme.
pub open spec fn behind_scheme(authorization: Seq<u8>) -> Option<Seq<u8>> {
    if is_header_text(authorization) && authorization.len() >= scheme().len()
        && authorization.take(scheme().len() as int) == scheme() {
        Some(authorization.skip(scheme().len() as int))
    } else {
        None
    }
}

/// The credentials an authorization header claims.
pub open spec fn claimed(authorization: Seq<u8>) -> Option<(Seq<char>, Seq<char>)> {
    match behind_scheme(authorization) {
        Some(encoded) => match base64_decoded(encoded) {
            Some(decoded) => credentials_in(decoded),
            None => None,
        },
        None => None,
    }
}

proof fn lemma_same_encoding(left: Seq<char>, right: Seq<char>)
    ensures
        encode_utf8(left) == encode_utf8(right) <==> left == right,
{
    vstd::utf8::encode_utf8_decode_utf8(left);
    vstd::utf8::encode_utf8_decode_utf8(right);
}

/// The user that decoded credentials authenticate, if both halves are the configured ones.
pub fn user_of_credentials(decoded: Option<Vec<u8>>, username: &str, password: &str) -> (user:
    Option<UserId>)
    ensures
        user is Some <==> (decoded matches Some(decoded) && credentials_in(decoded@) == Some(
            (username@, password@),
        )),
        user matches Some(user) ==> user.login@ == username@,
{
    let text = match decoded {
        Some(decoded) => text_from_utf8(decoded),
        None => None,
    };
    let text = match text {
        Some(text) => text,
        None => return None,
    };
    let chars = chars_of(text.as_str());
    let colon: usize = find_char(&chars, ':');
    proof {
        lemma_first_index(chars@, ':');
    }
    if colon == chars.len() {
        return None;
    }
    let user = text.as_str().substring_char(0, colon);
    let pass = text.as_str().substring_char(colon + 1, chars.len());
    assert(user@ =~= chars@.take(colon as int));
    assert(pass@ =~= chars@.skip(colon + 1));
    proof {
        lemma_same_encoding(user@, username@);
        lemma_same_encoding(pass@, password@);
    }
    // Both comparisons run whatever the first one finds.
    let user_matches = constant_time_eq(user.as_bytes(), username.as_bytes());
    let pass_matches = constant_time_eq(pass.as_bytes(), password.as_bytes());
    if user_matches && pass_matches {
        Some(UserId::new(user))
    } else {
        None
    }
}

/// The user an authorization header authenticates.
pub fn authenticated_dashboard_user(
    authorization: Option<&[u8]>,
    username: &str,
    password: &str,
) -> (user: Option<UserId>)
    ensures
        user is Some <==> (authorization matches Some(authorization) && claimed(authorization@)
            == Some((username@, password@))),
        user matches Some(user) ==> user.login@ == username@,
{
    let authorization = match authorization {
        Some(authorization) => authorization,
        None => return None,
    };
    proof {
        reveal_strlit("Basic ");
    }
    if !reads_as_text(authorization) || authorization.len() < 6 {
        return None;
    }
    let named = vstd::slice::slice_subrange(authorization, 0, 6);
    let encoded = vstd::slice::slice_subrange(authorization, 6, authorization.len());
    assert(named@ =~= authorization@.take(6));
    assert(encoded@ =~= authorization@.skip(6));
    if !is_word(named, "Basic ") {
        return None;
    }
    user_of_credentials(decode_base64(encoded), username, password)
}

/// What a request says of itself, as far as it bears on where it came from. Header values are
/// raw bytes, as they arrived.
#[derive(Debug, PartialEq, Eq)]
pub struct RequestOrigin {
    pub method: String,
    pub sec_fetch_site: Option<Vec<u8>>,
    pub origin: Option<Vec<u8>>,
    pub host: Option<Vec<u8>>,
    /// The authority of the request's own target, where it names one.
    pub authority: Option<Vec<u8>>,
}

/// A request of this method cannot change anything.
pub open spec fn only_reads(method: Seq<char>) -> bool {
    method == "GET"@ || method == "HEAD"@ || method == "OPTIONS"@
}

/// Where `://` first stands, or the length where it does not.
pub open spec fn scheme_end(value: Seq<u8>) -> int
    decreases value.len(),
{
    if value.len() < 3 {
        value.len() as int
    } else if value[0] == 58 && value[1] == 47 && value[2] == 47 {
        0
    } else {
        1 + scheme_end(value.skip(1))
    }
}

/// What an origin names behind its scheme, if it reads as text and has one.
pub open spec fn origin_authority(origin: Seq<u8>) -> Option<Seq<u8>> {
    if is_header_text(origin) && scheme_end(origin) < origin.len() {
        Some(origin.skip(scheme_end(origin) + 3))
    } else {
        None
    }
}

pub open spec fn lower(byte: u8) -> u8 {
    if 65 <= byte <= 90 {
        (byte + 32) as u8
    } else {
        byte
    }
}

/// The same but for the case of ASCII letters.
pub open spec fn same_but_case(left: Seq<u8>, right: Seq<u8>) -> bool {
    left.len() == right.len() && forall|i: int|
        0 <= i < left.len() ==> #[trigger] lower(left[i]) == lower(right[i])
}

/// The host a request was sent to: what its header says, or else what its target names.
pub open spec fn sent_to(request: RequestOrigin) -> Option<Seq<u8>> {
    match request.host {
        Some(host) if is_header_text(host@) => Some(host@),
        _ => match request.authority {
            Some(authority) => Some(authority@),
            None => None,
        },
    }
}

/// Another site sent the request, or may have.
pub open spec fn is_cross_site(request: RequestOrigin) -> bool {
    !only_reads(request.method@) && match request.sec_fetch_site {
        Some(site) => site@ != ascii("same-origin"@) && site@ != ascii("none"@),
        None => match request.origin {
            Some(origin) => match (origin_authority(origin@), sent_to(request)) {
                (Some(authority), Some(host)) => !same_but_case(authority, host),
                _ => true,
            },
            None => false,
        },
    }
}

proof fn lemma_scheme_end(value: Seq<u8>, at: int)
    requires
        0 <= at <= value.len(),
        forall|i: int|
            0 <= i < at ==> !(i + 3 <= value.len() && #[trigger] value[i] == 58 && value[i + 1]
                == 47 && value[i + 2] == 47),
        at + 3 <= value.len() ==> value[at] == 58 && value[at + 1] == 47 && value[at + 2] == 47,
        at + 3 > value.len() ==> at + 2 >= value.len(),
    ensures
        scheme_end(value) == (if at + 3 <= value.len() {
            at
        } else {
            value.len() as int
        }),
    decreases value.len(),
{
    if value.len() >= 3 {
        if at > 0 {
            let rest = value.skip(1);
            assert(value[0] != 58 || value[0int + 1] != 47 || value[0int + 2] != 47);
            assert forall|i: int| 0 <= i < at - 1 implies !(i + 3 <= rest.len()
                && #[trigger] rest[i] == 58 && rest[i + 1] == 47 && rest[i + 2] == 47) by {
                assert(rest[i] == value[i + 1]);
            }
            lemma_scheme_end(rest, at - 1);
        }
    }
}

/// Where `://` first stands in a value, or the length where it does not.
fn find_scheme_end(value: &[u8]) -> (at: usize)
    ensures
        at == scheme_end(value@),
        at <= value@.len(),
        at < value@.len() ==> at + 3 <= value@.len(),
{
    let mut at: usize = 0;
    while at < value.len() && value.len() - at >= 3
        invariant
            at <= value.len(),
            forall|i: int|
                0 <= i < at ==> !(i + 3 <= value@.len() && #[trigger] value@[i] == 58 && value@[i
                    + 1] == 47 && value@[i + 2] == 47),
        decreases value.len() - at,
    {
        if value[at] == 58 && value[at + 1] == 47 && value[at + 2] == 47 {
            proof {
                lemma_scheme_end(value@, at as int);
            }
            return at;
        }
        at += 1;
    }
    proof {
        lemma_scheme_end(value@, at as int);
    }
    value.len()
}

fn to_lower(byte: u8) -> (lowered: u8)
    ensures
        lowered == lower(byte),
{
    if 65 <= byte && byte <= 90 {
        byte + 32
    } else {
        byte
    }
}

fn eq_ignore_case(left: &[u8], right: &[u8]) -> (same: bool)
    ensures
        same == same_but_case(left@, right@),
{
    if left.len() != right.len() {
        return false;
    }
    let mut i: usize = 0;
    while i < left.len()
        invariant
            i <= left.len(),
            left.len() == right.len(),
            forall|k: int| 0 <= k < i ==> #[trigger] lower(left@[k]) == lower(right@[k]),
        decreases left.len() - i,
    {
        if to_lower(left[i]) != to_lower(right[i]) {
            assert(lower(left@[i as int]) != lower(right@[i as int]));
            return false;
        }
        i += 1;
    }
    true
}

/// Whether a request was sent from another site. The browser attaches the dashboard's
/// credentials to any request bound for it, so a page on another site could otherwise change
/// state here on the user's behalf.
pub fn cross_site(request: &RequestOrigin) -> (cross: bool)
    ensures
        cross == is_cross_site(*request),
{
    let method = request.method.as_str();
    if same_text(method, "GET") || same_text(method, "HEAD")
        || same_text(method, "OPTIONS") {
        return false;
    }
    if let Some(site) = &request.sec_fetch_site {
        proof {
            reveal_strlit("same-origin");
            reveal_strlit("none");
        }
        return !is_word(site.as_slice(), "same-origin") && !is_word(site.as_slice(), "none");
    }
    let origin = match &request.origin {
        Some(origin) => origin.as_slice(),
        None => return false,
    };
    if !reads_as_text(origin) {
        return true;
    }
    let end: usize = find_scheme_end(origin);
    if end == origin.len() {
        return true;
    }
    let authority = vstd::slice::slice_subrange(origin, end + 3, origin.len());
    assert(authority@ =~= origin@.skip(end + 3));
    if let Some(host) = &request.host {
        if reads_as_text(host.as_slice()) {
            return !eq_ignore_case(authority, host.as_slice());
        }
    }
    match &request.authority {
        Some(host) => !eq_ignore_case(authority, host.as_slice()),
        None => true,
    }
}

/// What becomes of a request to the dashboard.
#[derive(Debug, PartialEq, Eq)]
pub enum Admission {
    /// It is told how to authenticate.
    Challenge,
    /// It is refused as another site's.
    Refuse,
    /// It goes through, as this user's.
    Pass(UserId),
}

/// The challenge of an unauthenticated request.
pub const CHALLENGE: &'static str = "Basic realm=\"dependaboard\"";

impl Admission {
    /// The status a request is answered with, where it does not go through.
    pub fn status(&self) -> (status: Option<u16>)
        ensures
            status == (match *self {
                Admission::Challenge => Some(401u16),
                Admission::Refuse => Some(403u16),
                Admission::Pass(_) => None,
            }),
    {
        match self {
            Admission::Challenge => Some(401),
            Admission::Refuse => Some(403),
            Admission::Pass(_) => None,
        }
    }

    /// What a request is told, where it does not go through.
    pub fn message(&self) -> (message: Option<&'static str>)
        ensures
            said(message) == (match *self {
                Admission::Challenge => Some("authentication required"@),
                Admission::Refuse => Some("cross-site request refused"@),
                Admission::Pass(_) => None,
            }),
    {
        match self {
            Admission::Challenge => Some("authentication required"),
            Admission::Refuse => Some("cross-site request refused"),
            Admission::Pass(_) => None,
        }
    }
}

/// Holds a request to the origin policy once it is authenticated, and not before: the refusal
/// is only ever told to a caller who could have made the request legitimately.
pub fn admission_of_user(user: Option<UserId>, request: &RequestOrigin) -> (admission: Admission)
    ensures
        admission == (match user {
            None => Admission::Challenge,
            Some(user) => if is_cross_site(*request) {
                Admission::Refuse
            } else {
                Admission::Pass(user)
            },
        }),
{
    match user {
        None => Admission::Challenge,
        Some(user) => {
            if cross_site(request) {
                Admission::Refuse
            } else {
                Admission::Pass(user)
            }
        },
    }
}

/// Authenticates a request, then holds it to the origin policy.
pub fn admission(
    authorization: Option<&[u8]>,
    username: &str,
    password: &str,
    request: &RequestOrigin,
) -> (admission: Admission)
    ensures
        admission is Challenge <==> !(authorization matches Some(authorization) && claimed(
            authorization@,
        ) == Some((username@, password@))),
        admission !is Challenge ==> (admission is Refuse <==> is_cross_site(*request)),
        admission matches Admission::Pass(user) ==> user.login@ == username@,
{
    admission_of_user(authenticated_dashboard_user(authorization, username, password), request)
}

/// A request that cannot change state is never refused for where it came from.
pub proof fn law_a_request_that_only_reads_is_never_cross_site(request: RequestOrigin)
    requires
        only_reads(request.method@),
    ensures
        !is_cross_site(request),
{
}

/// The browser's own word on where a request came from decides, whatever else it says.
pub proof fn law_fetch_metadata_decides(left: RequestOrigin, right: RequestOrigin)
    requires
        left.method == right.method,
        left.sec_fetch_site is Some,
        left.sec_fetch_site == right.sec_fetch_site,
    ensures
        is_cross_site(left) == is_cross_site(right),
{
}

/// A header authenticates one user and password at most.
pub proof fn law_a_header_authenticates_one_identity(
    authorization: Option<&[u8]>,
    username: &str,
    password: &str,
    other_username: &str,
    other_password: &str,
    user: Option<UserId>,
    other: Option<UserId>,
)
    requires
        call_ensures(authenticated_dashboard_user, (authorization, username, password), user),
        call_ensures(
            authenticated_dashboard_user,
            (authorization, other_username, other_password),
            other,
        ),
        user is Some,
        other is Some,
    ensures
        username@ == other_username@,
        password@ == other_password@,
{
}

/// Decoded credentials authenticate the configured user exactly where they are the text of the
/// user's name, a colon and the password; the name is what stands before the first colon, so a
/// configured name that holds one is never met.
pub proof fn law_what_credentials_authenticate(
    decoded: Vec<u8>,
    username: &str,
    password: &str,
    user: Option<UserId>,
    nobody: Option<UserId>,
)
    requires
        call_ensures(user_of_credentials, (Some(decoded), username, password), user),
        call_ensures(user_of_credentials, (None::<Vec<u8>>, username, password), nobody),
    ensures
        (forall|i: int| 0 <= i < username@.len() ==> #[trigger] username@[i] != ':') ==> (user
            is Some <==> valid_utf8(decoded@) && decode_utf8(decoded@) == username@ + seq![':']
            + password@),
        (exists|i: int| 0 <= i < username@.len() && #[trigger] username@[i] == ':') ==> user
            is None,
        user matches Some(user) ==> user.login@ == username@,
        nobody is None,
{
    let text = decode_utf8(decoded@);
    lemma_first_index(text, ':');
    let colon = first_index(text, ':');
    if user is Some {
        assert(text =~= text.take(colon) + seq![':'] + text.skip(colon + 1));
        assert forall|i: int| 0 <= i < username@.len() implies #[trigger] username@[i] != ':' by {
            assert(text.take(colon)[i] == text[i]);
        }
    }
    if (forall|i: int| 0 <= i < username@.len() ==> #[trigger] username@[i] != ':') && text
        == username@ + seq![':'] + password@ {
        assert forall|i: int| 0 <= i < username@.len() implies #[trigger] text[i] != ':' by {
            assert(text[i] == username@[i]);
        }
        lemma_first_index_unique(text, ':', username@.len() as int);
        assert(text.take(username@.len() as int) =~= username@);
        assert(text.skip(username@.len() as int + 1) =~= password@);
    }
}

/// A header authenticates whom the credentials behind `Basic ` do, decoded; one that does not
/// begin so, does not read as text, or does not decode authenticates nobody, as does none at
/// all.
pub proof fn law_what_a_header_authenticates(
    header: &[u8],
    decoded: Vec<u8>,
    username: &str,
    password: &str,
    reads: bool,
    user: Option<UserId>,
    of_decoded: Option<UserId>,
    nobody: Option<UserId>,
)
    requires
        call_ensures(reads_as_text, (header,), reads),
        call_ensures(authenticated_dashboard_user, (Some(header), username, password), user),
        call_ensures(authenticated_dashboard_user, (None::<&[u8]>, username, password), nobody),
        call_ensures(user_of_credentials, (Some(decoded), username, password), of_decoded),
    ensures
        nobody is None,
        ({
            let named = header@.len() >= 6 && header@[0] as int == 'B' as int && header@[1] as int
                == 'a' as int && header@[2] as int == 's' as int && header@[3] as int == 'i' as int
                && header@[4] as int == 'c' as int && header@[5] as int == ' ' as int;
            &&& !named || !reads ==> user is None
            &&& named && reads ==> match base64_decoded(header@.skip(6)) {
                None => user is None,
                Some(bytes) => bytes == decoded@ ==> (user is Some <==> of_decoded is Some),
            }
        }),
        user matches Some(user) ==> user.login@ == username@,
{
    reveal_strlit("Basic ");
    assert(scheme().len() == 6);
    let named = header@.len() >= 6 && header@[0] as int == 'B' as int && header@[1] as int
        == 'a' as int && header@[2] as int == 's' as int && header@[3] as int == 'i' as int
        && header@[4] as int == 'c' as int && header@[5] as int == ' ' as int;
    if header@.len() >= 6 {
        let front = header@.take(6);
        if named {
            assert(front =~= scheme());
        }
        if front == scheme() {
            assert(front[0] == scheme()[0] && front[1] == scheme()[1] && front[2] == scheme()[2]
                && front[3] == scheme()[3] && front[4] == scheme()[4] && front[5] == scheme()[5]);
        }
    }
}

/// What another site sent, by the browser's own word: any request but one that only reads, unless
/// the browser says that it came from the same origin or from no site at all. The words are
/// taken to the letter.
pub proof fn law_the_browsers_word_on_a_request(request: RequestOrigin, cross: bool)
    requires
        call_ensures(cross_site, (&request,), cross),
    ensures
        request.method@ == "GET"@ || request.method@ == "HEAD"@ || request.method@ == "OPTIONS"@
            ==> !cross,
        request.method@ != "GET"@ && request.method@ != "HEAD"@ && request.method@ != "OPTIONS"@
            ==> (request.sec_fetch_site matches Some(site) ==> (cross <==> !(site@
            == "same-origin"@.map_values(|c: char| c as u8)) && !(site@ == "none"@.map_values(
            |c: char| c as u8,
        )))),
        request.sec_fetch_site is None && request.origin is None ==> !cross,
{
    assert(ascii("same-origin"@) =~= "same-origin"@.map_values(|c: char| c as u8));
    assert(ascii("none"@) =~= "none"@.map_values(|c: char| c as u8));
}

/// Where the browser says nothing of its own, a request that changes something has to come from
/// the host it is sent to: what its origin names behind the first `://` is compared with the
/// host header, or with the request's target where that header is missing or does not read, and
/// only the case of ASCII letters may differ.
pub proof fn law_a_request_comes_from_the_host_it_is_sent_to(
    request: RequestOrigin,
    end: int,
    reads: bool,
    host_reads: bool,
    origin: &[u8],
    host: &[u8],
    cross: bool,
)
    requires
        request.method@ != "GET"@ && request.method@ != "HEAD"@ && request.method@ != "OPTIONS"@,
        request.sec_fetch_site is None,
        request.origin matches Some(sent) && sent@ == origin@,
        request.host matches Some(named) ==> named@ == host@,
        call_ensures(reads_as_text, (origin,), reads),
        call_ensures(reads_as_text, (host,), host_reads),
        0 <= end <= origin@.len() - 3,
        origin@[end] as int == ':' as int && origin@[end + 1] as int == '/' as int && origin@[end
            + 2] as int == '/' as int,
        forall|i: int|
            0 <= i < end ==> !(#[trigger] origin@[i] as int == ':' as int && origin@[i + 1] as int
                == '/' as int && origin@[i + 2] as int == '/' as int),
        call_ensures(cross_site, (&request,), cross),
    ensures
        !reads ==> cross,
        reads ==> {
            let from = origin@.skip(end + 3);
            let same = |to: Seq<u8>|
                from.len() == to.len() && forall|i: int|
                    #![trigger from[i]]
                    0 <= i < from.len() ==> from[i] == to[i] || ('A' as int <= from[i] as int
                        <= 'Z' as int && to[i] == from[i] + 32) || ('A' as int <= to[i] as int
                        <= 'Z' as int && from[i] == to[i] + 32);
            if request.host is Some && host_reads {
                cross <==> !same(host@)
            } else {
                match request.authority {
                    Some(authority) => cross <==> !same(authority@),
                    None => cross,
                }
            }
        },
{
    let value = origin@;
    assert forall|i: int| 0 <= i < end implies !(i + 3 <= value.len() && #[trigger] value[i] == 58
        && value[i + 1] == 47 && value[i + 2] == 47) by {
        assert(!(value[i] as int == ':' as int && value[i + 1] as int == '/' as int && value[i
            + 2] as int == '/' as int));
    }
    lemma_scheme_end(value, end);
    if reads {
        let from = value.skip(end + 3);
        lemma_same_but_case(from, host@);
        match request.authority {
            Some(authority) => {
                lemma_same_but_case(from, authority@);
            },
            None => {},
        }
    }
}

proof fn lemma_same_but_case(from: Seq<u8>, to: Seq<u8>)
    ensures
        same_but_case(from, to) <==> from.len() == to.len() && forall|i: int|
            #![trigger from[i]]
            0 <= i < from.len() ==> from[i] == to[i] || ('A' as int <= from[i] as int <= 'Z' as int
                && to[i] == from[i] + 32) || ('A' as int <= to[i] as int <= 'Z' as int && from[i]
                == to[i] + 32),
{
    if same_but_case(from, to) {
        assert forall|i: int|
            #![trigger from[i]]
            0 <= i < from.len() implies from[i] == to[i] || ('A' as int <= from[i] as int
            <= 'Z' as int && to[i] == from[i] + 32) || ('A' as int <= to[i] as int <= 'Z' as int
            && from[i] == to[i] + 32) by {
            assert(lower(from[i]) == lower(to[i]));
        }
    }
    if from.len() == to.len() && forall|i: int|
        #![trigger from[i]]
        0 <= i < from.len() ==> from[i] == to[i] || ('A' as int <= from[i] as int <= 'Z' as int
            && to[i] == from[i] + 32) || ('A' as int <= to[i] as int <= 'Z' as int && from[i]
            == to[i] + 32) {
        assert forall|i: int| 0 <= i < from.len() implies #[trigger] lower(from[i]) == lower(
            to[i],
        ) by {
            assert(from[i] == to[i] || ('A' as int <= from[i] as int <= 'Z' as int && to[i]
                == from[i] + 32) || ('A' as int <= to[i] as int <= 'Z' as int && from[i] == to[i]
                + 32));
        }
    }
}

/// An origin that names no host, or does not read as text, is another site's.
pub proof fn law_an_origin_without_a_host_is_another_sites(
    request: RequestOrigin,
    origin: &[u8],
    cross: bool,
)
    requires
        request.method@ != "GET"@ && request.method@ != "HEAD"@ && request.method@ != "OPTIONS"@,
        request.sec_fetch_site is None,
        request.origin matches Some(sent) && sent@ == origin@,
        forall|i: int|
            0 <= i <= origin@.len() - 3 ==> !(#[trigger] origin@[i] as int == ':' as int && origin@[i
                + 1] as int == '/' as int && origin@[i + 2] as int == '/' as int),
        call_ensures(cross_site, (&request,), cross),
    ensures
        cross,
{
    let value = origin@;
    let at = if value.len() >= 2 {
        value.len() - 2
    } else {
        0
    };
    assert forall|i: int| 0 <= i < at implies !(i + 3 <= value.len() && #[trigger] value[i] == 58
        && value[i + 1] == 47 && value[i + 2] == 47) by {
        assert(!(value[i] as int == ':' as int && value[i + 1] as int == '/' as int && value[i
            + 2] as int == '/' as int));
    }
    lemma_scheme_end(value, at);
}

/// A request that nobody authenticated is challenged, whatever else it is; one of a user that
/// another site sent is refused; and the rest pass as that user's. A challenge is a 401 and a
/// refusal a 403, each told in its own words.
pub proof fn law_who_is_let_in(
    user: UserId,
    request: RequestOrigin,
    cross: bool,
    of_nobody: Admission,
    of_user: Admission,
    challenged: Option<u16>,
    refused: Option<u16>,
    passed: Option<u16>,
    challenge: Option<&'static str>,
    refusal: Option<&'static str>,
)
    requires
        call_ensures(cross_site, (&request,), cross),
        call_ensures(admission_of_user, (None::<UserId>, &request), of_nobody),
        call_ensures(admission_of_user, (Some(user), &request), of_user),
        call_ensures(Admission::status, (&Admission::Challenge,), challenged),
        call_ensures(Admission::status, (&Admission::Refuse,), refused),
        call_ensures(Admission::status, (&Admission::Pass(user),), passed),
        call_ensures(Admission::message, (&Admission::Challenge,), challenge),
        call_ensures(Admission::message, (&Admission::Refuse,), refusal),
    ensures
        of_nobody is Challenge,
        cross ==> of_user is Refuse,
        !cross ==> of_user == Admission::Pass(user),
        challenged == Some(401u16),
        refused == Some(403u16),
        passed is None,
        challenge matches Some(message) && message@ == "authentication required"@,
        refusal matches Some(message) && message@ == "cross-site request refused"@,
        CHALLENGE@ == "Basic realm=\"dependaboard\""@,
{
}

/// A request is let in as the user its header authenticates.
pub proof fn law_a_request_is_let_in_as_its_user(
    authorization: Option<&[u8]>,
    username: &str,
    password: &str,
    request: RequestOrigin,
    user: Option<UserId>,
    cross: bool,
    let_in: Admission,
)
    requires
        call_ensures(authenticated_dashboard_user, (authorization, username, password), user),
        call_ensures(cross_site, (&request,), cross),
        call_ensures(admission, (authorization, username, password, &request), let_in),
    ensures
        user is None <==> let_in is Challenge,
        user is Some && cross ==> let_in is Refuse,
        user is Some && !cross ==> (let_in matches Admission::Pass(passed) && passed.login@
            == username@),
{
}

} // verus!
