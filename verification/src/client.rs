use crate::auth::{has_protocol_key, make_signature, signed_at, NonceSource};
use crate::error::FetchError;
use crate::params::Params;
use vstd::prelude::*;
use vstd::string::*;

verus! {

/// A request that is to be made: the method, the URL without a query
/// string, and the parameters.
pub struct Call {
    pub method: String,
    pub url: String,
    pub params: Params,
}

/// A request that is ready to be sent: the `Authorization` header was
/// computed over exactly the parameters in `form`.
pub struct SignedRequest {
    pub method: String,
    pub url: String,
    pub auth_header: String,
    pub signature: String,
    pub form: Params,
}

/// The four credentials of a client, as texts, and the count of the
/// requests that it has signed.
pub struct TwitView {
    pub api_key: Seq<char>,
    pub api_key_secret: Seq<char>,
    pub access_token: Seq<char>,
    pub access_token_secret: Seq<char>,
    pub signed: nat,
}

/// A client of the API: it holds the credentials with which every request
/// is signed, and the source of the nonces, so that no two of its requests
/// carry the same one.
pub struct Twit {
    api_key: String,
    api_key_secret: String,
    access_token: String,
    access_token_secret: String,
    nonces: NonceSource,
}

impl View for Twit {
    type V = TwitView;

    closed spec fn view(&self) -> TwitView {
        TwitView {
            api_key: self.api_key@,
            api_key_secret: self.api_key_secret@,
            access_token: self.access_token@,
            access_token_secret: self.access_token_secret@,
            signed: self.nonces@,
        }
    }
}

/// The parameters of a request for the users that follow, or are followed
/// by, a user.
pub open spec fn user_list_params() -> Map<Seq<char>, Seq<char>> {
    Map::<Seq<char>, Seq<char>>::empty().insert("max_results"@, "1000"@).insert(
        "user.fields"@,
        "id,name,username,location,description"@,
    )
}

/// The parameters of a request for a timeline.
pub open spec fn timeline_params() -> Map<Seq<char>, Seq<char>> {
    Map::<Seq<char>, Seq<char>>::empty().insert("expansions"@, "author_id"@).insert(
        "user.fields"@,
        "id,name,username"@,
    )
}

impl Twit {
    /// A client with the given credentials, which has signed nothing yet.
    pub fn new(
        api_key: String,
        api_key_secret: String,
        access_token: String,
        access_token_secret: String,
    ) -> (r: Twit)
        ensures
            r@ == (TwitView {
                api_key: api_key@,
                api_key_secret: api_key_secret@,
                access_token: access_token@,
                access_token_secret: access_token_secret@,
                signed: 0,
            }),
    {
        Twit {
            api_key,
            api_key_secret,
            access_token,
            access_token_secret,
            nonces: NonceSource::new(),
        }
    }

    /// The count of the requests that the client has signed.
    pub fn signed(&self) -> (n: u64)
        ensures
            n == self@.signed,
    {
        self.nonces.issued()
    }

    /// Signs a request at the present time, with a nonce that no other
    /// request of this client carries. What is to be sent is what was signed:
    /// the same method, URL and parameters. A request whose parameters use
    /// the name of a protocol parameter is refused, and so is any request
    /// once the client has no nonce left; the client then stays as it is.
    pub fn authorize(&mut self, call: Call) -> (r: Result<SignedRequest, FetchError>)
        ensures
            match r {
                Ok(request) => {
                    &&& !has_protocol_key(call.params@)
                    &&& old(self)@.signed < u64::MAX
                    &&& final(self)@ == (TwitView {
                        signed: old(self)@.signed + 1,
                        ..old(self)@
                    })
                    &&& request.method == call.method
                    &&& request.url == call.url
                    &&& request.form == call.params
                    &&& exists|seconds: i64| #[trigger]
                        signed_at(
                            request.signature@,
                            request.auth_header@,
                            call.url@,
                            call.method@,
                            old(self)@.api_key,
                            old(self)@.access_token,
                            old(self)@.api_key_secret,
                            old(self)@.access_token_secret,
                            call.params@,
                            seconds,
                            old(self)@.signed,
                        )
                },
                Err(error) => {
                    &&& error == FetchError::Signing
                    &&& has_protocol_key(call.params@) || old(self)@.signed == u64::MAX
                    &&& final(self)@ == old(self)@
                },
            },
    {
        let Call { method, url, params } = call;
        let signed = make_signature(
            url.as_str(),
            method.as_str(),
            &self.api_key,
            &self.access_token,
            &self.api_key_secret,
            &self.access_token_secret,
            &params,
            &mut self.nonces,
        );
        match signed {
            Ok(sig) => {
                let ghost seconds = choose|seconds: i64| #[trigger]
                    signed_at(
                        sig.signature@,
                        sig.auth_header@,
                        url@,
                        method@,
                        self.api_key@,
                        self.access_token@,
                        self.api_key_secret@,
                        self.access_token_secret@,
                        params@,
                        seconds,
                        old(self).nonces@,
                    );
                let r = SignedRequest {
                    method,
                    url,
                    auth_header: sig.auth_header,
                    signature: sig.signature,
                    form: params,
                };
                proof {
                    assert(signed_at(
                        r.signature@,
                        r.auth_header@,
                        call.url@,
                        call.method@,
                        old(self)@.api_key,
                        old(self)@.access_token,
                        old(self)@.api_key_secret,
                        old(self)@.access_token_secret,
                        call.params@,
                        seconds,
                        old(self)@.signed,
                    ));
                }
                Ok(r)
            },
            Err(error) => Err(error),
        }
    }

    /// The request for the profile of the user with the given screen name.
    pub fn get_user(&self, screen_name: &str, body: &Params) -> (r: Call)
        ensures
            r.method@ == "GET"@,
            r.url@ == "https://api.twitter.com/2/users/by/username/"@ + screen_name@,
            r.params@ == body@,
    {
        let mut url = "https://api.twitter.com/2/users/by/username/".to_owned();
        url.append(screen_name);
        Call { method: "GET".to_owned(), url, params: body.clone() }
    }

    /// The request for the home timeline of the user with the given id.
    pub fn get_timeline(&self, user_id: String) -> (r: Call)
        ensures
            r.method@ == "GET"@,
            r.url@ == "https://api.twitter.com/2/users/"@ + user_id@
                + "/timelines/reverse_chronological"@,
            r.params@ == timeline_params(),
    {
        let mut url = "https://api.twitter.com/2/users/".to_owned();
        url.append(user_id.as_str());
        url.append("/timelines/reverse_chronological");
        let mut params = Params::new();
        params.insert("expansions", "author_id");
        params.insert("user.fields", "id,name,username");
        Call { method: "GET".to_owned(), url, params }
    }

    /// The request for the users that follow the user with the given id.
    pub fn get_followers(&self, user_id: &String) -> (r: Call)
        ensures
            r.method@ == "GET"@,
            r.url@ == "https://api.twitter.com/2/users/"@ + user_id@ + "/followers"@,
            r.params@ == user_list_params(),
    {
        let mut url = "https://api.twitter.com/2/users/".to_owned();
        url.append(user_id.as_str());
        url.append("/followers");
        Call { method: "GET".to_owned(), url, params: user_list() }
    }

    /// The request for the users that the user with the given id follows.
    pub fn get_following(&self, user_id: &String) -> (r: Call)
        ensures
            r.method@ == "GET"@,
            r.url@ == "https://api.twitter.com/2/users/"@ + user_id@ + "/following"@,
            r.params@ == user_list_params(),
    {
        let mut url = "https://api.twitter.com/2/users/".to_owned();
        url.append(user_id.as_str());
        url.append("/following");
        Call { method: "GET".to_owned(), url, params: user_list() }
    }
}

/// Builds the parameters of a request for a list of users.
fn user_list() -> (r: Params)
    ensures
        r@ == user_list_params(),
{
    let mut params = Params::new();
    params.insert("max_results", "1000");
    params.insert("user.fields", "id,name,username,location,description");
    params
}

} // verus!
