//! The client's configuration and the addresses it talks to.

use vstd::prelude::*;
use vstd::string::*;

verus! {

/// The endpoint used when the caller names none.
pub const DEFAULT_BASE_URL: &'static str = "https://api.openai.com/v1/";

/// Credentials and endpoint of one service.
pub struct OpenAI {
    pub api_key: String,
    pub base_url: String,
}

/// `url`, followed by a `/` unless it already ends with one.
pub open spec fn with_trailing_slash(url: Seq<char>) -> Seq<char> {
    if url.len() > 0 && url.last() == '/' {
        url
    } else {
        url.push('/')
    }
}

/// The path of the completion endpoint, below the base address.
pub const CHAT_COMPLETIONS_PATH: &'static str = "chat/completions";

/// The path of the embedding endpoint, below the base address.
pub const EMBEDDINGS_PATH: &'static str = "embeddings";

/// What precedes the key in the authorization header.
pub const BEARER: &'static str = "Bearer ";

impl OpenAI {
    /// A client for the service at `base_url`, or at [`DEFAULT_BASE_URL`] when
    /// none is given. The stored address always ends with `/`.
    pub fn new(api_key: String, base_url: Option<String>) -> (client: OpenAI)
        ensures
            client.api_key@ == api_key@,
            client.base_url@ == with_trailing_slash(
                match base_url {
                    Some(url) => url@,
                    None => DEFAULT_BASE_URL@,
                },
            ),
            client.base_url@.len() > 0 && client.base_url@.last() == '/',
    {
        let mut base_url = match base_url {
            Some(url) => url,
            None => DEFAULT_BASE_URL.to_owned(),
        };
        let len: usize = base_url.as_str().unicode_len();
        let ends_with_slash = len > 0 && base_url.as_str().get_char(len - 1) == '/';
        if !ends_with_slash {
            let ghost before = base_url@;
            proof {
                reveal_strlit("/");
            }
            base_url.append("/");
            assert(base_url@ =~= before.push('/'));
        }
        OpenAI { api_key, base_url }
    }

    /// The address that completions are posted to.
    pub fn chat_completions_url(&self) -> (url: String)
        ensures
            url@ == self.base_url@ + CHAT_COMPLETIONS_PATH@,
    {
        self.base_url.clone().concat(CHAT_COMPLETIONS_PATH)
    }

    /// The address that embedding requests are posted to.
    pub fn embeddings_url(&self) -> (url: String)
        ensures
            url@ == self.base_url@ + EMBEDDINGS_PATH@,
    {
        self.base_url.clone().concat(EMBEDDINGS_PATH)
    }

    /// The value of the authorization header.
    pub fn authorization(&self) -> (value: String)
        ensures
            value@ == BEARER@ + self.api_key@,
    {
        BEARER.to_owned().concat(self.api_key.as_str())
    }
}

} // verus!
