//! The JSON texts of the protocol.
//!
//! Requests and replies are JSON, read and written by `serde_json`. What the
//! parser makes of a text, and what text the writer makes of a value, is a
//! function of the input alone; each has a name here, and the functions that
//! decide on the outcome take it as an argument.

use std::collections::BTreeMap;
use vstd::prelude::*;

verus! {

/// Why `serde_json` gave up on a text or a value.
#[verifier::external_type_specification]
#[verifier::external_body]
pub struct ExJsonError(serde_json::Error);

/// What `serde_json::from_slice` makes of `text` as an array of strings: the
/// strings in order, or nothing where it refuses the text.
pub uninterp spec fn json_string_array(text: Seq<u8>) -> Option<Seq<Seq<char>>>;

/// What `serde_json::from_str` makes of `text` as an object of strings: its
/// members as pairs of name and value in the order of a `BTreeMap`, or
/// nothing where it refuses the text.
pub uninterp spec fn json_string_object(text: Seq<char>) -> Option<Seq<(Seq<char>, Seq<char>)>>;

/// The text that `serde_json::to_string` writes for an object with these
/// members, an absent value written as `null`.
pub uninterp spec fn json_object_text(object: Map<Seq<char>, Option<Seq<char>>>) -> Seq<char>;

/// The object that a list of members spells: each name with the value of the
/// last member that bears it.
pub open spec fn object_of(members: Seq<(Seq<char>, Option<Seq<char>>)>) -> Map<
    Seq<char>,
    Option<Seq<char>>,
>
    decreases members.len(),
{
    if members.len() == 0 {
        Map::empty()
    } else {
        object_of(members.drop_last()).insert(members.last().0, members.last().1)
    }
}

/// Whether no two members bear the same name.
pub open spec fn distinct_names(members: Seq<(Seq<char>, Option<Seq<char>>)>) -> bool {
    forall|i: int, j: int|
        0 <= i < j < members.len() ==> (#[trigger] members[i]).0 != (#[trigger] members[j]).0
}

/// Whether the member at `i` bears `name`.
pub open spec fn bears(
    members: Seq<(Seq<char>, Option<Seq<char>>)>,
    name: Seq<char>,
    i: int,
) -> bool {
    0 <= i < members.len() && members[i].0 == name
}

/// The object holds the names that the members bear and no others.
pub proof fn lemma_object_of_names(members: Seq<(Seq<char>, Option<Seq<char>>)>, name: Seq<char>)
    ensures
        object_of(members).contains_key(name) <==> exists|i: int| bears(members, name, i),
    decreases members.len(),
{
    if members.len() > 0 {
        let rest = members.drop_last();
        let last = members.len() - 1;
        lemma_object_of_names(rest, name);
        if object_of(members).contains_key(name) {
            if name == members[last].0 {
                assert(bears(members, name, last));
            } else {
                let i = choose|i: int| bears(rest, name, i);
                assert(bears(members, name, i));
            }
        }
        if exists|i: int| bears(members, name, i) {
            let i = choose|i: int| bears(members, name, i);
            if i < last {
                assert(bears(rest, name, i));
            }
        }
    }
}

/// Among members whose names differ, each is in the object with its own
/// value.
pub proof fn lemma_object_of_distinct(members: Seq<(Seq<char>, Option<Seq<char>>)>, at: int)
    requires
        distinct_names(members),
        0 <= at < members.len(),
    ensures
        object_of(members).contains_key(members[at].0),
        object_of(members)[members[at].0] == members[at].1,
    decreases members.len(),
{
    let rest = members.drop_last();
    let last = members.len() - 1;
    if at < last {
        assert forall|i: int, j: int| 0 <= i < j < rest.len() implies (#[trigger] rest[i]).0 != (
        #[trigger] rest[j]).0 by {
            assert(members[i].0 != members[j].0);
        }
        lemma_object_of_distinct(rest, at);
        assert(rest[at] == members[at]);
        assert(members[at].0 != members[last].0);
    }
}

/// Taking one member out of members whose names differ takes its name out of
/// the object and leaves the rest.
pub proof fn lemma_object_of_remove(members: Seq<(Seq<char>, Option<Seq<char>>)>, at: int)
    requires
        distinct_names(members),
        0 <= at < members.len(),
    ensures
        distinct_names(members.remove(at)),
        object_of(members.remove(at)) == object_of(members).remove(members[at].0),
{
    let fewer = members.remove(at);
    assert forall|i: int, j: int| 0 <= i < j < fewer.len() implies (#[trigger] fewer[i]).0 != (
    #[trigger] fewer[j]).0 by {
        let a = if i < at { i } else { i + 1 };
        let b = if j < at { j } else { j + 1 };
        assert(members[a].0 != members[b].0);
    }
    let want = object_of(members).remove(members[at].0);
    assert forall|name: Seq<char>| object_of(fewer).contains_key(name) <==> want.contains_key(
        name,
    ) by {
        lemma_object_of_names(fewer, name);
        lemma_object_of_names(members, name);
        if object_of(fewer).contains_key(name) {
            let i = choose|i: int| bears(fewer, name, i);
            let a = if i < at { i } else { i + 1 };
            assert(bears(members, name, a));
            if a < at {
                assert(members[a].0 != members[at].0);
            } else {
                assert(members[at].0 != members[a].0);
            }
        }
        if want.contains_key(name) {
            let a = choose|a: int| bears(members, name, a);
            let i = if a < at { a } else { a - 1 };
            assert(bears(fewer, name, i));
        }
    }
    assert forall|name: Seq<char>| object_of(fewer).contains_key(name) implies object_of(
        fewer,
    )[name] == want[name] by {
        lemma_object_of_names(fewer, name);
        let i = choose|i: int| bears(fewer, name, i);
        let a = if i < at { i } else { i + 1 };
        assert(members[a] == fewer[i]);
        lemma_object_of_distinct(fewer, i);
        lemma_object_of_distinct(members, a);
    }
    assert(object_of(fewer) =~= want);
}

/// A member whose name none of the others bears can join them: the names
/// still differ.
pub proof fn lemma_distinct_push(
    members: Seq<(Seq<char>, Option<Seq<char>>)>,
    member: (Seq<char>, Option<Seq<char>>),
)
    requires
        distinct_names(members),
        !object_of(members).contains_key(member.0),
    ensures
        distinct_names(members.push(member)),
        object_of(members.push(member)) == object_of(members).insert(member.0, member.1),
{
    let more = members.push(member);
    assert(more.drop_last() =~= members);
    assert forall|i: int, j: int| 0 <= i < j < more.len() implies (#[trigger] more[i]).0 != (
    #[trigger] more[j]).0 by {
        if j < members.len() {
            assert(members[i].0 != members[j].0);
        } else {
            lemma_object_of_names(members, members[i].0);
            assert(bears(members, members[i].0, i));
        }
    }
}

/// The members without those whose name a later member bears. Their names
/// differ, and they spell the same object.
pub fn last_of_each_name(members: Vec<(String, Option<String>)>) -> (kept: Vec<
    (String, Option<String>),
>)
    ensures
        distinct_names(kept.deep_view()),
        object_of(kept.deep_view()) == object_of(members.deep_view()),
{
    let ghost spelled = members.deep_view();
    let mut kept: Vec<(String, Option<String>)> = Vec::new();
    let mut i: usize = 0;
    while i < members.len()
        invariant
            spelled == members.deep_view(),
            i <= members@.len(),
            distinct_names(kept.deep_view()),
            object_of(kept.deep_view()) == object_of(spelled.take(i as int)),
        decreases members@.len() - i,
    {
        let name = members[i].0.clone();
        let value = members[i].1.clone();
        let ghost member = (name@, value.deep_view());
        let ghost before = kept.deep_view();
        match position_of(&kept, &name) {
            Some(at) => {
                let _ = kept.remove(at);
                proof {
                    assert(kept.deep_view() =~= before.remove(at as int));
                    lemma_object_of_remove(before, at as int);
                }
            },
            None => {
                proof {
                    lemma_object_of_names(before, name@);
                    assert(object_of(before).remove(name@) =~= object_of(before));
                }
            },
        }
        let ghost thinned = kept.deep_view();
        kept.push((name, value));
        proof {
            assert(kept.deep_view() =~= thinned.push(member));
            lemma_distinct_push(thinned, member);
            assert(spelled[i as int] == member);
            assert(spelled.take(i + 1).drop_last() =~= spelled.take(i as int));
            assert(object_of(before).remove(member.0).insert(member.0, member.1) =~= object_of(
                before,
            ).insert(member.0, member.1));
        }
        i += 1;
    }
    proof {
        assert(spelled.take(i as int) =~= spelled);
    }
    kept
}

/// The place of the member that bears `name`, where there is one.
fn position_of(members: &Vec<(String, Option<String>)>, name: &String) -> (at: Option<usize>)
    ensures
        match at {
            Some(i) => bears(members.deep_view(), name@, i as int),
            None => forall|i: int| !bears(members.deep_view(), name@, i),
        },
{
    let mut i: usize = 0;
    while i < members.len()
        invariant
            i <= members@.len(),
            forall|j: int| 0 <= j < i ==> !bears(members.deep_view(), name@, j),
        decreases members@.len() - i,
    {
        if members[i].0 == *name {
            return Some(i);
        }
        i += 1;
    }
    None
}

/// `serde_json::from_slice` at the type of a vector of strings. The result is
/// the named one for this text.
#[verifier::external_body]
pub(crate) fn read_string_array(text: &[u8]) -> (parsed: Result<Vec<String>, serde_json::Error>)
    ensures
        match parsed {
            Ok(items) => json_string_array(text@) == Some(items.deep_view()),
            Err(_) => json_string_array(text@) is None,
        },
{
    serde_json::from_slice::<Vec<String>>(text)
}

/// `serde_json::from_str` at the type of a `BTreeMap` from string to string,
/// whose members are handed out in the map's order. The result is the named
/// one for this text.
#[verifier::external_body]
pub(crate) fn read_string_object(text: &str) -> (parsed: Result<
    Vec<(String, String)>,
    serde_json::Error,
>)
    ensures
        match parsed {
            Ok(members) => json_string_object(text@) == Some(members.deep_view()),
            Err(_) => json_string_object(text@) is None,
        },
{
    let parsed = serde_json::from_str::<BTreeMap<String, String>>(text);
    parsed.map(|members| members.into_iter().collect())
}

/// `serde_json::to_string` on the `BTreeMap` that holds each member under its
/// name; the names differ, so that every member is in it. The result is the
/// named one for that map. The crate fails only where an implementation of
/// `Serialize` fails or a map has names that are no strings; a map from
/// strings to optional strings is neither, so the call succeeds.
#[verifier::external_body]
pub(crate) fn write_string_object(members: &Vec<(String, Option<String>)>) -> (written: Result<
    String,
    serde_json::Error,
>)
    requires
        distinct_names(members.deep_view()),
    ensures
        written is Ok,
        written matches Ok(text) ==> text@ == json_object_text(object_of(members.deep_view())),
{
    let object: BTreeMap<&String, &Option<String>> = members.iter().map(|m| (&m.0, &m.1)).collect();
    serde_json::to_string(&object)
}

} // verus!
