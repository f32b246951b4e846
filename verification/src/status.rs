//! The status registry: reason phrases by numeric status code.

use std::collections::HashMap;
use vstd::prelude::*;

verus! {

broadcast use vstd::std_specs::hash::group_hash_axioms;

/// The reason phrases that a server starts with.
pub open spec fn standard_phrases() -> Map<u16, Seq<char>> {
    map![
        200u16 => "OK"@,
        201u16 => "Created"@,
        204u16 => "No Content"@,
        400u16 => "Bad Request"@,
        401u16 => "Unauthorized"@,
        403u16 => "Forbidden"@,
        404u16 => "Not Found"@,
        405u16 => "Method Not Allowed"@,
        500u16 => "Internal Server Error"@,
    ]
}

/// Mapping from status code to reason phrase. It is filled at start-up and
/// only read afterwards.
#[derive(Clone, Debug)]
pub struct StatusRegistry {
    phrases: HashMap<u16, String>,
}

impl View for StatusRegistry {
    type V = Map<u16, Seq<char>>;

    closed spec fn view(&self) -> Map<u16, Seq<char>> {
        self.phrases@.map_values(|phrase: String| phrase@)
    }
}

impl StatusRegistry {
    /// A registry that knows no code.
    pub fn new() -> (registry: StatusRegistry)
        ensures
            registry@ == Map::<u16, Seq<char>>::empty(),
    {
        let registry = StatusRegistry { phrases: HashMap::new() };
        assert(registry@ =~= Map::<u16, Seq<char>>::empty());
        registry
    }

    /// The registry of the nine standard codes.
    pub fn standard() -> (registry: StatusRegistry)
        ensures
            registry@ == standard_phrases(),
    {
        let mut registry = StatusRegistry::new();
        registry.register(200, "OK");
        registry.register(201, "Created");
        registry.register(204, "No Content");
        registry.register(400, "Bad Request");
        registry.register(401, "Unauthorized");
        registry.register(403, "Forbidden");
        registry.register(404, "Not Found");
        registry.register(405, "Method Not Allowed");
        registry.register(500, "Internal Server Error");
        assert(registry@ =~= standard_phrases());
        registry
    }

    /// Sets the reason phrase of `code`, replacing an earlier one.
    pub fn register(&mut self, code: u16, phrase: &str)
        ensures
            final(self)@ == old(self)@.insert(code, phrase@),
    {
        let owned = phrase.to_owned();
        self.phrases.insert(code, owned);
        assert(self@ =~= old(self)@.insert(code, phrase@));
    }

    /// Whether `code` has a reason phrase.
    pub fn contains(&self, code: u16) -> (known: bool)
        ensures
            known == self@.contains_key(code),
    {
        self.phrases.contains_key(&code)
    }

    /// The reason phrase of `code`, if it has one.
    pub fn reason(&self, code: u16) -> (phrase: Option<&String>)
        ensures
            match phrase {
                Some(p) => self@.contains_key(code) && p@ == self@[code],
                None => !self@.contains_key(code),
            },
    {
        self.phrases.get(&code)
    }
}

} // verus!
