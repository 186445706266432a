//! The server's state and what it decides.
//!
//! The server owns the store and knows where the vault is. It composes the
//! request that asks the vault for a project's keys, takes in the vault's
//! answer, and answers the requests of its clients. Sending and receiving
//! are the caller's business.

use crate::json::{json_object_text, json_string_array, object_of, write_string_object};
use crate::protocol::{
    answers, command_of, parse_command, refused_names, respond, store_all, stored_all, Reply,
};
use crate::store::{lookup, SecureStore, StoredSecret};
use vstd::prelude::*;
use vstd::string::StringExecFns;

verus! {

/// The status with which the vault hands out a project.
pub const STATUS_OK: u16 = 200;

/// What the vault is asked for.
#[derive(Debug)]
pub struct GetKeysInput {
    /// The project whose keys are wanted.
    pub project_name: String,
    /// The token that opens the project.
    pub token: String,
}

/// The request that asks the vault for a project's keys.
pub struct ProjectRequest {
    /// Where to post the request.
    pub url: String,
    /// The value of the authorization header.
    pub authorization: String,
    /// The JSON body.
    pub body: String,
}

/// Why no project was taken in.
#[derive(Clone, Copy, PartialEq, Eq, Structural, Debug)]
pub enum VaultError {
    /// The vault answered with a status other than `STATUS_OK`.
    Rejected,
}

/// What taking in a project came to.
pub struct LoadReport {
    /// Whether the vault's answer held an object of keys.
    pub found: bool,
    /// The names of the keys that the store refused.
    pub refused: Vec<String>,
}

/// The store and the vault's coordinates.
pub struct SecretsServer {
    /// The secrets that the server holds.
    pub store: SecureStore,
    /// The address of the vault.
    pub base_url: String,
    /// The token sent to the vault with every request.
    pub token: String,
}

/// The address that hands out a project's keys.
pub open spec fn project_keys_url(base_url: Seq<char>) -> Seq<char> {
    base_url + "/projects/getkeys"@
}

/// The authorization header that carries `token`.
pub open spec fn bearer(token: Seq<char>) -> Seq<char> {
    "Bearer "@ + token
}

/// The members of the body that asks for a project's keys.
pub open spec fn body_members(project_name: Seq<char>, token: Seq<char>) -> Seq<
    (Seq<char>, Option<Seq<char>>),
> {
    seq![("project_name"@, Some(project_name)), ("token"@, Some(token))]
}

/// The name under which the store keeps the keys of a project.
pub open spec fn project_key_name(project_name: Seq<char>, token: Seq<char>) -> Seq<char> {
    project_name + "_"@ + token
}

/// The keys that are text, in order, each with its value.
pub open spec fn text_members(keys: Seq<(Seq<char>, Option<Seq<char>>)>) -> Seq<
    (Seq<char>, Seq<char>),
>
    decreases keys.len(),
{
    if keys.len() == 0 {
        Seq::empty()
    } else {
        let before = text_members(keys.drop_last());
        match keys.last().1 {
            Some(value) => before.push((keys.last().0, value)),
            None => before,
        }
    }
}

/// The keys that are text, in order, each with its value.
pub fn string_members(keys: &Vec<(String, Option<String>)>) -> (members: Vec<(String, String)>)
    ensures
        members.deep_view() == text_members(keys.deep_view()),
{
    let ghost spelled = keys.deep_view();
    let mut members: Vec<(String, String)> = Vec::new();
    let mut i: usize = 0;
    while i < keys.len()
        invariant
            spelled == keys.deep_view(),
            i <= keys@.len(),
            members.deep_view() == text_members(spelled.take(i as int)),
        decreases keys@.len() - i,
    {
        proof {
            assert(spelled.take(i + 1).drop_last() =~= spelled.take(i as int));
        }
        match &keys[i].1 {
            Some(value) => {
                members.push((keys[i].0.clone(), value.clone()));
            },
            None => {},
        }
        i += 1;
    }
    assert(spelled.take(i as int) =~= spelled);
    members
}

impl SecretsServer {
    /// A server with an empty store.
    pub fn new(base_url: String, token: String) -> (server: Self)
        ensures
            server.store@ == Map::<Seq<char>, StoredSecret>::empty(),
            server.base_url@ == base_url@,
            server.token@ == token@,
    {
        SecretsServer { store: SecureStore::new(), base_url, token }
    }

    /// The request that asks the vault for the keys of a project.
    pub fn build_project(&self, input: &GetKeysInput) -> (request: ProjectRequest)
        ensures
            request.url@ == project_keys_url(self.base_url@),
            request.authorization@ == bearer(self.token@),
            request.body@ == json_object_text(
                object_of(body_members(input.project_name@, input.token@)),
            ),
    {
        let mut members: Vec<(String, Option<String>)> = Vec::new();
        members.push(("project_name".to_owned(), Some(input.project_name.clone())));
        members.push(("token".to_owned(), Some(input.token.clone())));
        proof {
            reveal_strlit("project_name");
            reveal_strlit("token");
            assert("project_name"@.len() != "token"@.len());
            assert(members.deep_view() =~= body_members(input.project_name@, input.token@));
        }
        let body = match write_string_object(&members) {
            Ok(body) => body,
            Err(_) => String::new(),
        };
        let mut url = self.base_url.clone();
        url.append("/projects/getkeys");
        let mut authorization = "Bearer ".to_owned();
        authorization.append(self.token.as_str());
        ProjectRequest { url, authorization, body }
    }

    /// Takes in the vault's answer: its status, and the object of keys that
    /// it held, a key that is no text having no value. A status other than
    /// `STATUS_OK` is refused and changes nothing. Otherwise every key that
    /// is text is stored, and the names that the store refused are reported.
    pub fn load_project(
        &mut self,
        status: u16,
        keys: Option<Vec<(String, Option<String>)>>,
    ) -> (loaded: Result<LoadReport, VaultError>)
        ensures
            final(self).base_url == old(self).base_url,
            final(self).token == old(self).token,
            final(self).store.page_size() == old(self).store.page_size(),
            loaded is Ok <==> status == STATUS_OK,
            loaded is Err ==> final(self).store@ == old(self).store@,
            loaded matches Ok(report) ==> match keys {
                None => {
                    &&& final(self).store@ == old(self).store@
                    &&& !report.found
                    &&& report.refused@.len() == 0
                },
                Some(k) => {
                    &&& stored_all(
                        old(self).store@,
                        final(self).store@,
                        text_members(k.deep_view()),
                        old(self).store.page_size(),
                    )
                    &&& report.found
                    &&& report.refused.deep_view() == refused_names(
                        text_members(k.deep_view()),
                        old(self).store.page_size(),
                    )
                },
            },
    {
        if status != STATUS_OK {
            return Err(VaultError::Rejected);
        }
        match keys {
            None => Ok(LoadReport { found: false, refused: Vec::new() }),
            Some(k) => {
                let members = string_members(&k);
                let refused = store_all(&mut self.store, &members);
                Ok(LoadReport { found: true, refused })
            },
        }
    }

    /// The keys of a project as the store holds them: one member named
    /// `keys` where the store holds a secret under the project's name, and
    /// none otherwise.
    pub fn get_keys(&mut self, project_name: String, token: String) -> (keys: Vec<
        (String, String),
    >)
        ensures
            final(self).base_url == old(self).base_url,
            final(self).token == old(self).token,
            final(self).store@ == old(self).store@,
            final(self).store.page_size() == old(self).store.page_size(),
            match lookup(old(self).store@, project_key_name(project_name@, token@)) {
                Some(secret) => keys.deep_view() == seq![("keys"@, secret)],
                None => keys@.len() == 0,
            },
    {
        let mut keys: Vec<(String, String)> = Vec::new();
        let mut key = project_name;
        key.append("_");
        key.append(token.as_str());
        match self.store.get_secret(key.as_str()) {
            Some(secret) => {
                keys.push(("keys".to_owned(), secret));
            },
            None => {},
        }
        keys
    }

    /// Answers the request of a client whose session key is known.
    pub fn handle_client(&mut self, session_key: &[u8], request: &[u8]) -> (reply: Reply)
        ensures
            final(self).base_url == old(self).base_url,
            final(self).token == old(self).token,
            final(self).store.page_size() == old(self).store.page_size(),
            answers(
                old(self).store@,
                final(self).store@,
                old(self).store.page_size(),
                session_key@,
                command_of(json_string_array(request@)),
                reply,
            ),
    {
        let command = parse_command(request);
        respond(&mut self.store, session_key, command)
    }
}

} // verus!
