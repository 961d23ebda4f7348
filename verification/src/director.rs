//! Parsing actions for the Icinga Director executor: the payload names
//! the Director API call, carries its body, and may ask for live
//! creation. The HTTP call itself is the caller's.

use vstd::prelude::*;
use crate::error::ExecutorError;
use crate::model::Action;
use crate::value::{Model, Value, obj_get};

verus! {

pub open spec fn str_create_host() -> Seq<char> {
    seq!['c', 'r', 'e', 'a', 't', 'e', '_', 'h', 'o', 's', 't']
}

pub open spec fn str_create_service() -> Seq<char> {
    seq!['c', 'r', 'e', 'a', 't', 'e', '_', 's', 'e', 'r', 'v', 'i', 'c', 'e']
}

pub open spec fn str_action_name() -> Seq<char> {
    seq!['a', 'c', 't', 'i', 'o', 'n', '_', 'n', 'a', 'm', 'e']
}

pub open spec fn str_action_payload() -> Seq<char> {
    seq!['a', 'c', 't', 'i', 'o', 'n', '_', 'p', 'a', 'y', 'l', 'o', 'a', 'd']
}

pub open spec fn str_live_creation() -> Seq<char> {
    seq![
        'i', 'c', 'i', 'n', 'g', 'a', '2', '_', 'l', 'i', 'v', 'e', '_', 'c', 'r', 'e', 'a', 't',
        'i', 'o', 'n',
    ]
}

/// The Director API call an action may name.
#[derive(Debug, Clone, Copy, PartialEq, Eq, Structural)]
pub enum DirectorActionName {
    CreateHost,
    CreateService,
}

/// The configured name of a Director call, if `s` holds one.
pub open spec fn spec_director_name(s: Seq<char>) -> Option<DirectorActionName> {
    if s == str_create_host() {
        Some(DirectorActionName::CreateHost)
    } else if s == str_create_service() {
        Some(DirectorActionName::CreateService)
    } else {
        None
    }
}

impl DirectorActionName {
    /// Reads a Director call name from its configured form; an unknown
    /// name yields the unknown-argument error naming the offending
    /// value.
    pub fn from_str(name: &str) -> (r: Result<DirectorActionName, ExecutorError>)
        ensures
            match r {
                Ok(n) => spec_director_name(name@) == Some(n),
                Err(e) => spec_director_name(name@) is None && (
                e matches ExecutorError::UnknownArgumentError { message } && message@
                    == "invalid action_name value: "@ + name@),
            },
    {
        proof {
            reveal_strlit("create_host");
            reveal_strlit("create_service");
            assert("create_host"@ =~= str_create_host());
            assert("create_service"@ =~= str_create_service());
        }
        if crate::value::str_eq(name, "create_host") {
            Ok(DirectorActionName::CreateHost)
        } else if crate::value::str_eq(name, "create_service") {
            Ok(DirectorActionName::CreateService)
        } else {
            let message = "invalid action_name value: ".to_owned().concat(name);
            Err(ExecutorError::UnknownArgumentError { message })
        }
    }

    /// The Director API subpath this call addresses.
    pub fn to_director_api_subpath(&self) -> (r: &'static str)
        ensures
            self is CreateHost ==> r@ == "host"@,
            self is CreateService ==> r@ == "service"@,
    {
        match self {
            DirectorActionName::CreateHost => "host",
            DirectorActionName::CreateService => "service",
        }
    }
}

/// A parsed Director action: the call, its body, and whether objects
/// are created live.
#[derive(Debug, PartialEq)]
pub struct DirectorAction {
    pub name: DirectorActionName,
    pub payload: Value,
    pub live_creation: bool,
}

/// The mirror of a [`DirectorAction`].
pub struct DirectorActionModel {
    pub name: DirectorActionName,
    pub payload: Model,
    pub live_creation: bool,
}

impl DirectorAction {
    /// The mirror of this parsed action.
    pub open spec fn model(self) -> DirectorActionModel {
        DirectorActionModel {
            name: self.name,
            payload: self.payload.model(),
            live_creation: self.live_creation,
        }
    }
}

/// What parsing an action payload yields: the named call, the body
/// under `action_payload`, and the live-creation flag, which defaults
/// to false.
pub open spec fn spec_parse_director(payload: Seq<(Seq<char>, Model)>) -> Option<
    DirectorActionModel,
> {
    match obj_get(payload, str_action_name()) {
        Some(Model::Str(n)) => match spec_director_name(n) {
            Some(name) => match obj_get(payload, str_action_payload()) {
                Some(body) => Some(
                    DirectorActionModel {
                        name,
                        payload: body,
                        live_creation: obj_get(payload, str_live_creation()) == Some(
                            Model::Bool(true),
                        ),
                    },
                ),
                None => None,
            },
            None => None,
        },
        _ => None,
    }
}

/// Parses one action for the Director executor. A missing or
/// non-string call name, and a missing body, are missing-argument
/// errors; a name the Director does not know is an unknown-argument
/// error naming the offending value.
pub fn parse_action(action: &Action) -> (r: Result<DirectorAction, ExecutorError>)
    ensures
        match r {
            Ok(a) => spec_parse_director(action.payload.model()) == Some(a.model()),
            Err(e) => spec_parse_director(action.payload.model()) is None && (match obj_get(
                action.payload.model(),
                str_action_name(),
            ) {
                Some(Model::Str(n)) => if spec_director_name(n) is None {
                    e matches ExecutorError::UnknownArgumentError { message } && message@
                        == "invalid action_name value: "@ + n
                } else {
                    e matches ExecutorError::MissingArgumentError { message } && message@
                        == "Director Action Payload not specified"@
                },
                _ => e matches ExecutorError::MissingArgumentError { message } && message@
                    == "Director Action not specified"@,
            }),
        },
{
    proof {
        reveal_strlit("action_name");
        reveal_strlit("action_payload");
        reveal_strlit("icinga2_live_creation");
        assert("action_name"@ =~= str_action_name());
        assert("action_payload"@ =~= str_action_payload());
        assert("icinga2_live_creation"@ =~= str_live_creation());
    }
    let name_value = match action.payload.get("action_name") {
        Some(Value::Str(n)) => n.clone(),
        _ => {
            return Err(
                ExecutorError::MissingArgumentError {
                    message: "Director Action not specified".to_owned(),
                },
            );
        },
    };
    let name = match DirectorActionName::from_str(name_value.as_str()) {
        Ok(n) => n,
        Err(e) => {
            return Err(e);
        },
    };
    let body = match action.payload.get("action_payload") {
        Some(v) => v.deep_clone(),
        None => {
            return Err(
                ExecutorError::MissingArgumentError {
                    message: "Director Action Payload not specified".to_owned(),
                },
            );
        },
    };
    let live_creation = match action.payload.get("icinga2_live_creation") {
        Some(Value::Bool(b)) => *b,
        _ => false,
    };
    Ok(DirectorAction { name, payload: body, live_creation })
}


/// The Director API subpath of a call.
pub open spec fn spec_subpath(name: DirectorActionName) -> Seq<char> {
    match name {
        DirectorActionName::CreateHost => "host"@,
        DirectorActionName::CreateService => "service"@,
    }
}

/// The URL a parsed Director action calls: the server base, a slash,
/// the call's subpath, and the live-creation query when asked for.
pub open spec fn spec_director_url(base: Seq<char>, name: DirectorActionName, live: bool) -> Seq<
    char,
> {
    base + "/"@ + spec_subpath(name) + (if live {
        "?live-creation=true"@
    } else {
        Seq::<char>::empty()
    })
}

/// Assembles the URL for a parsed Director action. The HTTP call on
/// it is the caller's.
pub fn director_url(server_api_url: &str, action: &DirectorAction) -> (r: String)
    ensures
        r@ == spec_director_url(server_api_url@, action.name, action.live_creation),
{
    let mut url = server_api_url.to_owned().concat("/").concat(
        action.name.to_director_api_subpath(),
    );
    if action.live_creation {
        url = url.concat("?live-creation=true");
    }
    url
}

} // verus!
