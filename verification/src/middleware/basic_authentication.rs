//! HTTP basic authentication for a set of paths.
//!
//! A request for one of the paths must carry an `Authorization` header of the
//! form `Basic <base64 of user:password>`; the credentials then go to an
//! authentication service, whose answer decides whether the request goes on.

use vstd::prelude::*;
use vstd::hash_set::StringHashSet;
use vstd::utf8::{decode_utf8, encode_utf8, valid_utf8};
use std::sync::Arc;
use crate::authentication::ServerUser;
use crate::codec::{base64_decoded, decode_base64, fits_in_memory, lemma_encode_utf8_skip, string_from_utf8};
use crate::context::{ServerContext, ServerHttpResponse, text_map};
use crate::text::{
    chars_of, find_in, is_first_occurrence, lemma_find_first, occurs_at, split_once, text_between,
};

verus! {

/// The user and password in decoded credentials: UTF-8 text split at its first `:`.
pub open spec fn credentials_in(decoded: Seq<u8>) -> Option<(Seq<char>, Seq<char>)> {
    if valid_utf8(decoded) {
        split_once(decode_utf8(decoded), seq![':'])
    } else {
        None
    }
}

/// Decoded credentials split at their first `:`: the UTF-8 of a user holding
/// no `:`, a `:` and any password is read back as exactly that user and that
/// whole password, up to the end of the text.
pub proof fn law_credentials_split_at_first_colon(user: Seq<char>, password: Seq<char>)
    requires
        !user.contains(':'),
    ensures
        credentials_in(encode_utf8(user + seq![':'] + password)) == Some((user, password)),
{
    let text = user + seq![':'] + password;
    vstd::utf8::encode_utf8_valid_utf8(text);
    vstd::utf8::encode_utf8_decode_utf8(text);
    let colon = seq![':'];
    let n = user.len() as int;
    assert forall|j: int| 0 <= j < n implies !occurs_at(text, colon, j) by {
        if occurs_at(text, colon, j) {
            assert(text.subrange(j, j + 1)[0] == text[j]);
            assert(text[j] == user[j]);
            assert(user.contains(':'));
        }
    }
    assert(text.subrange(n, n + 1) =~= colon);
    assert(is_first_occurrence(text, colon, n));
    lemma_find_first(text, colon, n);
    assert(text.take(n) =~= user);
    assert(text.skip(n + 1) =~= password);
}

/// Bytes that are not UTF-8 carry no credentials.
pub proof fn law_no_credentials_without_utf8(decoded: Seq<u8>)
    requires
        !valid_utf8(decoded),
    ensures
        credentials_in(decoded) is None,
{
}

/// The user and password in an `Authorization` header value: the scheme
/// before the first space must be `Basic`, and the rest must be Base64 of
/// credentials.
pub open spec fn basic_credentials_of(value: Seq<char>) -> Option<(Seq<char>, Seq<char>)> {
    match split_once(value, seq![' ']) {
        Some((scheme, encoded)) => if scheme == "Basic"@ {
            match base64_decoded(encoded) {
                Some(decoded) => credentials_in(decoded),
                None => None,
            }
        } else {
            None
        },
        None => None,
    }
}

/// An `Authorization` value `Basic <encoded>`, where `encoded` is the Base64
/// of the UTF-8 of `user:password` and `user` holds no `:`, carries exactly
/// that user and that whole password.
pub proof fn law_basic_header_carries_credentials(
    encoded: Seq<char>,
    user: Seq<char>,
    password: Seq<char>,
)
    requires
        !user.contains(':'),
        base64_decoded(encoded) == Some(encode_utf8(user + seq![':'] + password)),
    ensures
        basic_credentials_of("Basic"@ + seq![' '] + encoded) == Some((user, password)),
{
    reveal_strlit("Basic");
    let value = "Basic"@ + seq![' '] + encoded;
    let space = seq![' '];
    assert forall|j: int| 0 <= j < 5 implies !occurs_at(value, space, j) by {
        if occurs_at(value, space, j) {
            assert(value.subrange(j, j + 1)[0] == value[j]);
            assert(value[j] == "Basic"@[j]);
        }
    }
    assert(value.subrange(5, 6) =~= space);
    assert(is_first_occurrence(value, space, 5));
    lemma_find_first(value, space, 5);
    assert(value.take(5) =~= "Basic"@);
    assert(value.skip(6) =~= encoded);
    law_credentials_split_at_first_colon(user, password);
}

/// The value of the `WWW-Authenticate` header that asks for credentials for `realm`.
pub open spec fn challenge(realm: Seq<char>) -> Seq<char> {
    "Basic realm=\""@ + realm + "\" charset=\"UTF-8\""@
}

/// `r` is the `401` response that asks for credentials for `realm`.
pub open spec fn is_unauthorized_response(r: ServerHttpResponse, realm: Seq<char>) -> bool {
    &&& r.code == 401
    &&& r.content is Empty
    &&& r.content_length == 0
    &&& r.content_type@ == "text/plain"@
    &&& text_map(r.headers@) == Map::<Seq<char>, Seq<char>>::empty().insert(
        "WWW-Authenticate"@,
        challenge(realm),
    )
}

/// What the middleware asks for after looking at a request.
#[derive(Debug, PartialEq, Eq)]
pub enum AuthenticationStep {
    /// The request needs no authentication, or it has been rejected; go on with the pipeline
    /// only for the former (see the `proceed` field).
    Done { proceed: bool },
    /// Ask the authentication service about these credentials, then hand its answer to
    /// `after_authentication`.
    Verify { user: String, password: String },
}

/// The user and password in decoded credentials, or `Err` when they are not
/// UTF-8 or hold no `:`.
pub fn credentials_from_decoded(decoded: Vec<u8>) -> (r: Result<(String, String), ()>)
    ensures
        match r {
            Ok((user, password)) => credentials_in(decoded@) == Some((user@, password@)),
            Err(_) => credentials_in(decoded@) is None,
        },
{
    let text = match string_from_utf8(decoded) {
        Ok(text) => text,
        Err(_) => {
            return Err(());
        },
    };
    let chars = chars_of(text.as_str());
    let n = chars.len();
    let mut colon = Vec::new();
    colon.push(':');
    assert(colon@ =~= seq![':']);
    assert(chars@.subrange(0, n as int) =~= text@);
    match find_in(&chars, 0, n, &colon) {
        None => Err(()),
        Some(i) => {
            let user = text_between(text.as_str(), 0, i);
            let password = text_between(text.as_str(), i + 1, n);
            assert(password@ =~= text@.skip(i + 1));
            Ok((user, password))
        },
    }
}

/// The user and password in an `Authorization` header value, or `Err` when it
/// does not hold basic credentials.
pub fn basic_credentials(authentication_value: &str) -> (r: Result<(String, String), ()>)
    requires
        fits_in_memory(authentication_value@),
    ensures
        match r {
            Ok((user, password)) => basic_credentials_of(authentication_value@) == Some(
                (user@, password@),
            ),
            Err(_) => basic_credentials_of(authentication_value@) is None,
        },
{
    let chars = chars_of(authentication_value);
    let n = chars.len();
    let mut space = Vec::new();
    space.push(' ');
    assert(space@ =~= seq![' ']);
    assert(chars@.subrange(0, n as int) =~= authentication_value@);
    match find_in(&chars, 0, n, &space) {
        None => Err(()),
        Some(i) => {
            let scheme = text_between(authentication_value, 0, i);
            let basic = "Basic".to_owned();
            if scheme != basic {
                return Err(());
            }
            let encoded = text_between(authentication_value, i + 1, n);
            assert(encoded@ =~= authentication_value@.skip(i + 1));
            proof {
                lemma_encode_utf8_skip(authentication_value@, i + 1);
            }
            match decode_base64(encoded.as_str()) {
                Err(_) => Err(()),
                Ok(decoded) => credentials_from_decoded(decoded),
            }
        },
    }
}

/// Asks for basic authentication on requests for `paths`.
pub struct BasicAuthenticationMiddleware<T> {
    /// The service that checks credentials.
    pub authentication_service: Arc<T>,
    /// The paths that need authentication.
    pub paths: StringHashSet,
}

impl<T> BasicAuthenticationMiddleware<T> {
    /// The `Authorization` header of the request, if any, takes no more bytes than memory holds.
    pub open spec fn header_fits(context: ServerContext) -> bool {
        context.request.headers@.contains_key("Authorization"@) ==> fits_in_memory(
            context.request.headers@["Authorization"@]@,
        )
    }

    /// The basic credentials in the request's `Authorization` header, if it has one that holds them.
    pub open spec fn presented_credentials(context: ServerContext) -> Option<(Seq<char>, Seq<char>)> {
        let headers = context.request.headers@;
        if headers.contains_key("Authorization"@) {
            basic_credentials_of(headers["Authorization"@]@)
        } else {
            None
        }
    }

    /// What `before_authentication` does to a request state `before`, giving
    /// `after` and `step`: requests for other paths go on untouched; a request
    /// for a protected path with basic credentials hands them out untouched;
    /// any other request for a protected path is answered with `401`.
    pub open spec fn before_authentication_effect(
        self,
        before: ServerContext,
        after: ServerContext,
        step: AuthenticationStep,
    ) -> bool {
        &&& after.raw_message == before.raw_message
        &&& after.request == before.request
        &&& after.user == before.user
        &&& if !self.paths@.contains(before.request.path@) {
            step == (AuthenticationStep::Done { proceed: true }) && after.response == before.response
        } else {
            match Self::presented_credentials(before) {
                Some((user, password)) => {
                    &&& step matches AuthenticationStep::Verify { user: u, password: p }
                    &&& u@ == user
                    &&& p@ == password
                    &&& after.response == before.response
                },
                None => {
                    &&& step == (AuthenticationStep::Done { proceed: false })
                    &&& after.response matches Some(r)
                    &&& is_unauthorized_response(r, before.request.path@)
                },
            }
        }
    }

    /// What `after_authentication` does to a request state `before`, given the
    /// service's answer `result`, giving `after` and `proceed`: an accepted user
    /// is recorded and the request goes on; a refused one is answered with `401`.
    pub open spec fn after_authentication_effect(
        before: ServerContext,
        after: ServerContext,
        result: Result<ServerUser, ()>,
        proceed: bool,
    ) -> bool {
        &&& after.raw_message == before.raw_message
        &&& after.request == before.request
        &&& proceed == result is Ok
        &&& match result {
            Ok(user) => after.user == user && after.response == before.response,
            Err(_) => after.user == before.user && (after.response matches Some(r)
                && is_unauthorized_response(r, before.request.path@)),
        }
    }

    /// The part of the middleware that runs before the service is asked:
    /// requests for other paths go on; a request without basic credentials is
    /// answered with `401`; otherwise the credentials are handed out to be checked.
    pub fn before_authentication(&self, context: &mut ServerContext) -> (step: AuthenticationStep)
        requires
            Self::header_fits(*old(context)),
        ensures
            self.before_authentication_effect(*old(context), *final(context), step),
    {
        if !self.paths.contains(context.request.path.as_str()) {
            return AuthenticationStep::Done { proceed: true };
        }
        let credentials = match context.request.headers.get("Authorization") {
            None => Err(()),
            Some(value) => basic_credentials(value.as_str()),
        };
        match credentials {
            Ok((user, password)) => AuthenticationStep::Verify { user, password },
            Err(_) => {
                let response = Self::build_unauthorized_response(context.request.path.as_str());
                context.response = Some(response);
                AuthenticationStep::Done { proceed: false }
            },
        }
    }

    /// The part of the middleware that runs once the service has answered:
    /// an authenticated user is recorded and the request goes on; a refused one
    /// is answered with `401`.
    pub fn after_authentication(
        &self,
        context: &mut ServerContext,
        result: Result<ServerUser, ()>,
    ) -> (proceed: bool)
        ensures
            Self::after_authentication_effect(*old(context), *final(context), result, proceed),
    {
        match result {
            Ok(user) => {
                context.user = user;
                true
            },
            Err(_) => {
                let response = Self::build_unauthorized_response(context.request.path.as_str());
                context.response = Some(response);
                false
            },
        }
    }

    /// Whether a request in state `context` gets past basic authentication when
    /// the service's answer is `accepted`: its path is not protected, or it
    /// carries basic credentials and the service accepts them.
    pub open spec fn admits(self, context: ServerContext, accepted: bool) -> bool {
        !self.paths@.contains(context.request.path@) || (Self::presented_credentials(context) is Some
            && accepted)
    }

    /// A request passes basic authentication, and the rest of the pipeline
    /// runs, exactly when its path is not protected, or it carries basic
    /// credentials and the service accepts them; the service is asked about
    /// exactly the presented credentials; an accepted user is recorded; and a
    /// request that does not pass is answered with `401` for its path.
    /// `first` is the state before the middleware; `second` the state after
    /// `before_authentication`, which returned `step`; when `step` asked for
    /// verification, `third` is the state after `after_authentication`, given
    /// the service's `result`, which returned `accepted`.
    pub proof fn law_authentication_gate(
        self,
        first: ServerContext,
        second: ServerContext,
        step: AuthenticationStep,
        result: Result<ServerUser, ()>,
        third: ServerContext,
        accepted: bool,
    )
        requires
            self.before_authentication_effect(first, second, step),
            step is Verify ==> Self::after_authentication_effect(second, third, result, accepted),
        ensures
            ({
                let went_on = match step {
                    AuthenticationStep::Done { proceed } => proceed,
                    AuthenticationStep::Verify { .. } => accepted,
                };
                let last = if step is Verify { third } else { second };
                &&& went_on == self.admits(first, result is Ok)
                &&& !went_on ==> (last.response matches Some(r) && r.code == 401
                    && is_unauthorized_response(r, first.request.path@))
                &&& step matches AuthenticationStep::Verify { user, password } ==> Self::presented_credentials(
                    first,
                ) == Some((user@, password@))
                &&& step is Verify ==> (result matches Ok(u) ==> last.user == u)
                &&& last.request == first.request
            }),
    {
    }

    /// The `401` response that asks for credentials for `realm`.
    pub fn build_unauthorized_response(realm: &str) -> (r: ServerHttpResponse)
        ensures
            is_unauthorized_response(r, realm@),
    {
        let mut response = ServerHttpResponse::from_code(401);
        let mut value = "Basic realm=\"".to_owned();
        value.append(realm);
        value.append("\" charset=\"UTF-8\"");
        response.headers.insert("WWW-Authenticate".to_owned(), value);
        assert(text_map(response.headers@) =~= Map::<Seq<char>, Seq<char>>::empty().insert(
            "WWW-Authenticate"@,
            challenge(realm@),
        ));
        response
    }
}

} // verus!
