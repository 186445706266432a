//! Commands and replies.
//!
//! A request is a JSON array of strings whose first element names the
//! command. `get_env` asks for secrets by name and is answered with a JSON
//! object under the key stream of the session, in a frame. `store_env`
//! carries a JSON object of secrets to store and is answered with the
//! acknowledgement frame, as every failure is.

use crate::cipher::{apply_key_stream, xor_stream};
use crate::framing::{frame, framed, zero_frame};
use crate::json::{
    json_object_text, json_string_array, json_string_object, last_of_each_name, object_of,
    read_string_array, read_string_object, write_string_object,
};
use crate::protected_secret::ProtectedSecret;
use crate::store::{
    after_store, lemma_store_leaves_others, lemma_store_then_get, lookup, storable, SecureStore,
    StoredSecret, KEY_BYTES,
};
use vstd::prelude::*;
use vstd::utf8::encode_utf8;

verus! {

/// What a request asks for.
pub enum Command {
    /// The secrets under these names.
    GetEnv(Vec<String>),
    /// To store the secrets that this JSON object spells, where it is there.
    StoreEnv(Option<String>),
    /// Nothing that the server knows.
    Invalid,
}

/// A command as a mathematical value.
pub ghost enum CommandModel {
    GetEnv(Seq<Seq<char>>),
    StoreEnv(Option<Seq<char>>),
    Invalid,
}

impl View for Command {
    type V = CommandModel;

    open spec fn view(&self) -> CommandModel {
        match self {
            Command::GetEnv(names) => CommandModel::GetEnv(names.deep_view()),
            Command::StoreEnv(payload) => CommandModel::StoreEnv(payload.deep_view()),
            Command::Invalid => CommandModel::Invalid,
        }
    }
}

/// How a request was dealt with.
#[derive(Clone, Copy, PartialEq, Eq, Structural, Debug)]
pub enum Status {
    /// The command was carried out.
    Served,
    /// The request names no command that the server knows.
    InvalidCommand,
    /// The secrets to store are missing or are no JSON object of strings.
    InvalidPayload,
    /// The reply does not fit in a frame.
    ReplyTooLarge,
    /// The store could not be had.
    StoreUnavailable,
}

/// What goes back to the client, and what there is to report.
pub struct Reply {
    /// The bytes to send.
    pub frame: Vec<u8>,
    /// How the request was dealt with.
    pub status: Status,
    /// The names of the secrets that the store refused.
    pub refused: Vec<String>,
}

/// The command that a parsed request spells. A request that did not parse,
/// an empty one and one with an unknown first element spell none.
pub open spec fn command_of(parsed: Option<Seq<Seq<char>>>) -> CommandModel {
    match parsed {
        None => CommandModel::Invalid,
        Some(items) => if items.len() == 0 {
            CommandModel::Invalid
        } else if items[0] == "get_env"@ {
            CommandModel::GetEnv(items.skip(1))
        } else if items[0] == "store_env"@ {
            CommandModel::StoreEnv(
                if items.len() > 1 {
                    Some(items[1])
                } else {
                    None
                },
            )
        } else {
            CommandModel::Invalid
        },
    }
}

/// The acknowledgement: four zero bytes.
pub open spec fn acknowledgement() -> Seq<u8> {
    seq![0u8, 0u8, 0u8, 0u8]
}

/// The frame that answers `get_env`, given the JSON text of the answer: the
/// text under the key stream of the session, framed. Where there is too much
/// of it for a frame, the acknowledgement takes its place.
pub open spec fn sealed_reply(session_key: Seq<u8>, text: Seq<char>) -> Seq<u8> {
    let payload = xor_stream(encode_utf8(text), session_key);
    if payload.len() <= u32::MAX {
        framed(payload)
    } else {
        acknowledgement()
    }
}

/// Whether a reply with this JSON text fits in a frame.
pub open spec fn sendable(session_key: Seq<u8>, text: Seq<char>) -> bool {
    xor_stream(encode_utf8(text), session_key).len() <= u32::MAX
}

/// The members of the answer to `get_env`: each requested name with what the
/// store gives for it.
pub open spec fn requested(contents: Map<Seq<char>, StoredSecret>, names: Seq<Seq<char>>) -> Seq<
    (Seq<char>, Option<Seq<char>>),
> {
    Seq::new(names.len(), |i: int| (names[i], lookup(contents, names[i])))
}

/// The contents of a store after the members were stored one after the
/// other, each that can be stored under the key at its place.
pub open spec fn after_store_all(
    contents: Map<Seq<char>, StoredSecret>,
    members: Seq<(Seq<char>, Seq<char>)>,
    keys: Seq<Seq<u8>>,
    page: usize,
) -> Map<Seq<char>, StoredSecret>
    decreases members.len(),
{
    if members.len() == 0 {
        contents
    } else {
        let before = after_store_all(contents, members.drop_last(), keys.drop_last(), page);
        if storable(members.last().1, page) {
            after_store(before, members.last().0, members.last().1, keys.last(), page)
        } else {
            before
        }
    }
}

/// Whether `after` is what storing the members in `before` leaves, under some
/// keys of the right length.
pub open spec fn stored_all(
    before: Map<Seq<char>, StoredSecret>,
    after: Map<Seq<char>, StoredSecret>,
    members: Seq<(Seq<char>, Seq<char>)>,
    page: usize,
) -> bool {
    exists|keys: Seq<Seq<u8>>|
        {
            &&& keys.len() == members.len()
            &&& forall|i: int| 0 <= i < keys.len() ==> (#[trigger] keys[i]).len() == KEY_BYTES
            &&& after == #[trigger] after_store_all(before, members, keys, page)
        }
}

/// The names of the members that cannot be stored, in order.
pub open spec fn refused_names(members: Seq<(Seq<char>, Seq<char>)>, page: usize) -> Seq<
    Seq<char>,
>
    decreases members.len(),
{
    if members.len() == 0 {
        Seq::empty()
    } else {
        let before = refused_names(members.drop_last(), page);
        if storable(members.last().1, page) {
            before
        } else {
            before.push(members.last().0)
        }
    }
}

/// The members that a list of found secrets spells.
pub open spec fn members_of(found: Seq<(String, ProtectedSecret)>) -> Seq<
    (Seq<char>, Option<Seq<char>>),
> {
    Seq::new(found.len(), |i: int| (found[i].0@, found[i].1@))
}

/// The command that a parsed request spells.
pub fn decode_command(parsed: Option<Vec<String>>) -> (command: Command)
    ensures
        command@ == command_of(parsed.deep_view()),
{
    match parsed {
        None => Command::Invalid,
        Some(items) => {
            let mut items = items;
            let ghost spelled = items.deep_view();
            if items.len() == 0 {
                return Command::Invalid;
            }
            let get_env = "get_env".to_owned();
            let store_env = "store_env".to_owned();
            if items[0] == get_env {
                let _ = items.remove(0);
                assert(items.deep_view() =~= spelled.skip(1));
                Command::GetEnv(items)
            } else if items[0] == store_env {
                if items.len() > 1 {
                    Command::StoreEnv(Some(items[1].clone()))
                } else {
                    Command::StoreEnv(None)
                }
            } else {
                Command::Invalid
            }
        },
    }
}

/// The command that the bytes of a request spell.
pub fn parse_command(request: &[u8]) -> (command: Command)
    ensures
        command@ == command_of(json_string_array(request@)),
{
    match read_string_array(request) {
        Ok(items) => decode_command(Some(items)),
        Err(_) => decode_command(None),
    }
}

/// The frame that answers `get_env`, given the JSON text of the answer.
pub fn seal_reply(session_key: &[u8], text: &str) -> (out: Vec<u8>)
    ensures
        out@ == sealed_reply(session_key@, text@),
{
    let payload = apply_key_stream(text.as_bytes(), session_key);
    match frame(payload.as_slice()) {
        Some(out) => out,
        None => zero_frame(),
    }
}

/// Each requested name with what the store gives for it, kept from view.
/// The store is left as it was.
pub fn collect_secrets(store: &mut SecureStore, names: &Vec<String>) -> (found: Vec<
    (String, ProtectedSecret),
>)
    ensures
        final(store)@ == old(store)@,
        final(store).page_size() == old(store).page_size(),
        members_of(found@) == requested(old(store)@, names.deep_view()),
{
    let mut found: Vec<(String, ProtectedSecret)> = Vec::new();
    let mut i: usize = 0;
    while i < names.len()
        invariant
            store@ == old(store)@,
            store.page_size() == old(store).page_size(),
            i <= names@.len(),
            found@.len() == i,
            forall|j: int|
                0 <= j < i ==> (#[trigger] found@[j]).0@ == names@[j]@ && found@[j].1@ == lookup(
                    old(store)@,
                    names@[j]@,
                ),
        decreases names@.len() - i,
    {
        let secret = ProtectedSecret::new(store.get_secret(names[i].as_str()));
        found.push((names[i].clone(), secret));
        i += 1;
    }
    found
}

/// The JSON text of an answer with these secrets.
pub fn encode_secrets(found: &Vec<(String, ProtectedSecret)>) -> (text: String)
    ensures
        text@ == json_object_text(object_of(members_of(found@))),
{
    let mut members: Vec<(String, Option<String>)> = Vec::new();
    let mut i: usize = 0;
    while i < found.len()
        invariant
            i <= found@.len(),
            members@.len() == i,
            forall|j: int|
                0 <= j < i ==> (#[trigger] members@[j]).0@ == found@[j].0@
                    && members@[j].1.deep_view() == found@[j].1@,
        decreases found@.len() - i,
    {
        members.push((found[i].0.clone(), found[i].1.expose()));
        i += 1;
    }
    assert(members.deep_view() =~= members_of(found@));
    let members = last_of_each_name(members);
    match write_string_object(&members) {
        Ok(text) => text,
        Err(_) => String::new(),
    }
}

/// Stores the members one after the other, each under a fresh random key,
/// and goes on where the store refuses one. The names of the refused members
/// come back.
pub fn store_all(store: &mut SecureStore, members: &Vec<(String, String)>) -> (refused: Vec<String>)
    ensures
        final(store).page_size() == old(store).page_size(),
        stored_all(old(store)@, final(store)@, members.deep_view(), old(store).page_size()),
        refused.deep_view() == refused_names(members.deep_view(), old(store).page_size()),
{
    let ghost spelled = members.deep_view();
    let ghost page = store.page_size();
    let ghost before = store@;
    let ghost mut keys: Seq<Seq<u8>> = Seq::empty();
    let mut refused: Vec<String> = Vec::new();
    let mut i: usize = 0;
    while i < members.len()
        invariant
            spelled == members.deep_view(),
            store.page_size() == page,
            i <= members@.len(),
            keys.len() == i,
            forall|j: int| 0 <= j < keys.len() ==> (#[trigger] keys[j]).len() == KEY_BYTES,
            store@ == after_store_all(before, spelled.take(i as int), keys, page),
            refused.deep_view() == refused_names(spelled.take(i as int), page),
        decreases members@.len() - i,
    {
        let name = members[i].0.clone();
        let value = members[i].1.clone();
        let done = store.store_secret(name, value);
        proof {
            assert(spelled.take(i + 1).drop_last() =~= spelled.take(i as int));
            // The key under which the member went in; any will do for one that
            // was refused.
            let key = if done is Ok {
                store@[members@[i as int].0@].key
            } else {
                Seq::new(KEY_BYTES as nat, |k: int| 0u8)
            };
            assert(keys.push(key).drop_last() =~= keys);
            keys = keys.push(key);
        }
        match done {
            Ok(()) => {},
            Err(_) => {
                refused.push(members[i].0.clone());
            },
        }
        i += 1;
    }
    proof {
        assert(spelled.take(i as int) =~= spelled);
    }
    refused
}

/// Whether `reply` is the answer to `get_env` with this JSON text: the text
/// sealed and framed where it fits in a frame, and the acknowledgement with
/// `ReplyTooLarge` where it does not.
pub open spec fn carries(reply: Reply, session_key: Seq<u8>, text: Seq<char>) -> bool {
    &&& reply.frame@ == sealed_reply(session_key, text)
    &&& reply.status == if sendable(session_key, text) {
        Status::Served
    } else {
        Status::ReplyTooLarge
    }
    &&& reply.refused@.len() == 0
}

/// The reply to `get_env`, given the JSON text of the answer.
pub fn secrets_reply(session_key: &[u8], text: String) -> (reply: Reply)
    ensures
        carries(reply, session_key@, text@),
{
    let status = if sealed_len(text.as_str().as_bytes(), session_key) > u32::MAX as usize {
        Status::ReplyTooLarge
    } else {
        Status::Served
    };
    Reply { frame: seal_reply(session_key, text.as_str()), status, refused: Vec::new() }
}

/// The reply to `get_env` for these names. The store is left as it was.
pub fn answer_get_env(store: &mut SecureStore, session_key: &[u8], names: &Vec<String>) -> (reply:
    Reply)
    ensures
        final(store)@ == old(store)@,
        final(store).page_size() == old(store).page_size(),
        carries(
            reply,
            session_key@,
            json_object_text(object_of(requested(old(store)@, names.deep_view()))),
        ),
{
    let found = collect_secrets(store, names);
    secrets_reply(session_key, encode_secrets(&found))
}

/// Number of bytes that `data` has under the key stream of `key`.
fn sealed_len(data: &[u8], key: &[u8]) -> (n: usize)
    ensures
        n == xor_stream(data@, key@).len(),
{
    if key.len() == 0 {
        0
    } else {
        data.len()
    }
}

/// The reply to `store_env`, given what the payload parsed to: the
/// acknowledgement in every case. A payload that is missing or did not parse
/// leaves the store as it was.
pub fn answer_store_env(store: &mut SecureStore, parsed: Option<Vec<(String, String)>>) -> (reply:
    Reply)
    ensures
        final(store).page_size() == old(store).page_size(),
        reply.frame@ == acknowledgement(),
        match parsed {
            None => {
                &&& final(store)@ == old(store)@
                &&& reply.status == Status::InvalidPayload
                &&& reply.refused@.len() == 0
            },
            Some(members) => {
                &&& stored_all(
                    old(store)@,
                    final(store)@,
                    members.deep_view(),
                    old(store).page_size(),
                )
                &&& reply.status == Status::Served
                &&& reply.refused.deep_view() == refused_names(
                    members.deep_view(),
                    old(store).page_size(),
                )
            },
        },
{
    let frame = zero_frame();
    match parsed {
        None => Reply { frame, status: Status::InvalidPayload, refused: Vec::new() },
        Some(members) => {
            let refused = store_all(store, &members);
            Reply { frame, status: Status::Served, refused }
        },
    }
}

/// What the payload of `store_env` parses to, where there is one.
pub open spec fn payload_members(payload: Option<Seq<char>>) -> Option<
    Seq<(Seq<char>, Seq<char>)>,
> {
    match payload {
        None => None,
        Some(text) => json_string_object(text),
    }
}

/// Whether `reply` answers `command` on a store that held `before` and holds
/// `after`: what `get_env` asked for, sealed and framed, with the store
/// untouched; the acknowledgement for `store_env`, with the members stored; the
/// acknowledgement for anything else.
pub open spec fn answers(
    before: Map<Seq<char>, StoredSecret>,
    after: Map<Seq<char>, StoredSecret>,
    page: usize,
    session_key: Seq<u8>,
    command: CommandModel,
    reply: Reply,
) -> bool {
    match command {
        CommandModel::GetEnv(names) => {
            &&& after == before
            &&& carries(reply, session_key, json_object_text(object_of(requested(before, names))))
        },
        CommandModel::StoreEnv(payload) => {
            &&& reply.frame@ == acknowledgement()
            &&& match payload_members(payload) {
                None => {
                    &&& after == before
                    &&& reply.status == Status::InvalidPayload
                    &&& reply.refused@.len() == 0
                },
                Some(members) => {
                    &&& stored_all(before, after, members, page)
                    &&& reply.status == Status::Served
                    &&& reply.refused.deep_view() == refused_names(members, page)
                },
            }
        },
        CommandModel::Invalid => {
            &&& after == before
            &&& reply.frame@ == acknowledgement()
            &&& reply.status == Status::InvalidCommand
            &&& reply.refused@.len() == 0
        },
    }
}

/// Whether `reply` answers `command` where the store cannot be had: an empty
/// object for `get_env`, the acknowledgement for anything else.
pub open spec fn answers_without_store(
    session_key: Seq<u8>,
    command: CommandModel,
    reply: Reply,
) -> bool {
    &&& reply.refused@.len() == 0
    &&& match command {
        CommandModel::GetEnv(names) => {
            &&& reply.frame@ == sealed_reply(
                session_key,
                json_object_text(Map::<Seq<char>, Option<Seq<char>>>::empty()),
            )
            &&& reply.status == Status::StoreUnavailable
        },
        CommandModel::StoreEnv(payload) => {
            &&& reply.frame@ == acknowledgement()
            &&& reply.status == if payload_members(payload) is Some {
                Status::StoreUnavailable
            } else {
                Status::InvalidPayload
            }
        },
        CommandModel::Invalid => {
            &&& reply.frame@ == acknowledgement()
            &&& reply.status == Status::InvalidCommand
        },
    }
}

/// Carries out a command on the store and gives the reply.
pub fn respond(store: &mut SecureStore, session_key: &[u8], command: Command) -> (reply: Reply)
    ensures
        final(store).page_size() == old(store).page_size(),
        answers(
            old(store)@,
            final(store)@,
            old(store).page_size(),
            session_key@,
            command@,
            reply,
        ),
{
    match command {
        Command::GetEnv(names) => answer_get_env(store, session_key, &names),
        Command::StoreEnv(payload) => {
            let parsed = match payload {
                None => None,
                Some(text) => match read_string_object(text.as_str()) {
                    Ok(members) => Some(members),
                    Err(_) => None,
                },
            };
            answer_store_env(store, parsed)
        },
        Command::Invalid => {
            let frame = zero_frame();
            Reply { frame, status: Status::InvalidCommand, refused: Vec::new() }
        },
    }
}

/// The reply to a command where the store cannot be had.
pub fn respond_without_store(session_key: &[u8], command: Command) -> (reply: Reply)
    ensures
        answers_without_store(session_key@, command@, reply),
{
    match command {
        Command::GetEnv(names) => {
            let found: Vec<(String, ProtectedSecret)> = Vec::new();
            assert(members_of(found@) =~= Seq::<(Seq<char>, Option<Seq<char>>)>::empty());
            let text = encode_secrets(&found);
            Reply {
                frame: seal_reply(session_key, text.as_str()),
                status: Status::StoreUnavailable,
                refused: Vec::new(),
            }
        },
        Command::StoreEnv(payload) => {
            let frame = zero_frame();
            let parsed = match payload {
                None => false,
                Some(text) => read_string_object(text.as_str()).is_ok(),
            };
            let status = if parsed {
                Status::StoreUnavailable
            } else {
                Status::InvalidPayload
            };
            Reply { frame, status, refused: Vec::new() }
        },
        Command::Invalid => {
            let frame = zero_frame();
            Reply { frame, status: Status::InvalidCommand, refused: Vec::new() }
        },
    }
}

/// A member that could be stored, and whose name no later member bears, is
/// in the store afterwards with its own text, whatever the keys were.
pub proof fn lemma_member_is_kept(
    contents: Map<Seq<char>, StoredSecret>,
    members: Seq<(Seq<char>, Seq<char>)>,
    keys: Seq<Seq<u8>>,
    page: usize,
    at: int,
)
    requires
        keys.len() == members.len(),
        0 <= at < members.len(),
        keys[at].len() == KEY_BYTES,
        storable(members[at].1, page),
        forall|j: int| at < j < members.len() ==> (#[trigger] members[j]).0 != members[at].0,
    ensures
        lookup(after_store_all(contents, members, keys, page), members[at].0) == Some(
            members[at].1,
        ),
    decreases members.len(),
{
    let last = members.len() - 1;
    let before = after_store_all(contents, members.drop_last(), keys.drop_last(), page);
    if at == last {
        lemma_store_then_get(before, members[last].0, members[last].1, keys[last], page);
    } else {
        assert(members.drop_last()[at] == members[at]);
        assert(keys.drop_last()[at] == keys[at]);
        assert forall|j: int| at < j < members.drop_last().len() implies (
        #[trigger] members.drop_last()[j]).0 != members.drop_last()[at].0 by {
            assert(members[j].0 != members[at].0);
        }
        lemma_member_is_kept(contents, members.drop_last(), keys.drop_last(), page, at);
        assert(members[last].0 != members[at].0);
        lemma_store_leaves_others(
            before,
            members[last].0,
            members[last].1,
            keys[last],
            page,
            members[at].0,
        );
    }
}

/// A name that no member bears is left as it was, whatever the keys were.
pub proof fn lemma_other_names_are_left(
    contents: Map<Seq<char>, StoredSecret>,
    members: Seq<(Seq<char>, Seq<char>)>,
    keys: Seq<Seq<u8>>,
    page: usize,
    other: Seq<char>,
)
    requires
        keys.len() == members.len(),
        forall|j: int| 0 <= j < members.len() ==> (#[trigger] members[j]).0 != other,
    ensures
        lookup(after_store_all(contents, members, keys, page), other) == lookup(contents, other),
    decreases members.len(),
{
    if members.len() > 0 {
        let last = members.len() - 1;
        let before = after_store_all(contents, members.drop_last(), keys.drop_last(), page);
        assert forall|j: int| 0 <= j < members.drop_last().len() implies (
        #[trigger] members.drop_last()[j]).0 != other by {
            assert(members[j].0 != other);
        }
        lemma_other_names_are_left(contents, members.drop_last(), keys.drop_last(), page, other);
        assert(members[last].0 != other);
        lemma_store_leaves_others(
            before,
            members[last].0,
            members[last].1,
            keys[last],
            page,
            other,
        );
    }
}

/// After a batch was stored, every member that could be stored and whose
/// name no later member bears comes back with its own text, and every name
/// that no member bears gives what it gave before. This holds of any order in
/// which the members went in, and so of stores that were made one at a time
/// by callers that took turns.
pub proof fn lemma_stored_all_reads_back(
    before: Map<Seq<char>, StoredSecret>,
    after: Map<Seq<char>, StoredSecret>,
    members: Seq<(Seq<char>, Seq<char>)>,
    page: usize,
)
    requires
        stored_all(before, after, members, page),
    ensures
        forall|at: int|
            0 <= at < members.len() && storable((#[trigger] members[at]).1, page) && (forall|j: int|
                at < j < members.len() ==> (#[trigger] members[j]).0 != members[at].0) ==> lookup(
                after,
                members[at].0,
            ) == Some(members[at].1),
        forall|other: Seq<char>|
            (forall|j: int| 0 <= j < members.len() ==> (#[trigger] members[j]).0 != other)
                ==> #[trigger] lookup(after, other) == lookup(before, other),
{
    let keys = choose|keys: Seq<Seq<u8>>|
        {
            &&& keys.len() == members.len()
            &&& forall|i: int| 0 <= i < keys.len() ==> (#[trigger] keys[i]).len() == KEY_BYTES
            &&& after == #[trigger] after_store_all(before, members, keys, page)
        };
    assert forall|at: int|
        0 <= at < members.len() && storable((#[trigger] members[at]).1, page) && (forall|j: int|
            at < j < members.len() ==> (#[trigger] members[j]).0 != members[at].0) implies lookup(
        after,
        members[at].0,
    ) == Some(members[at].1) by {
        assert(keys[at].len() == KEY_BYTES);
        lemma_member_is_kept(before, members, keys, page, at);
    }
    assert forall|other: Seq<char>|
        (forall|j: int| 0 <= j < members.len() ==> (#[trigger] members[j]).0 != other)
            implies #[trigger] lookup(after, other) == lookup(before, other) by {
        lemma_other_names_are_left(before, members, keys, page, other);
    }
}

} // verus!
