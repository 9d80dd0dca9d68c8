//! Message roles and their JSON tags.

use vstd::prelude::*;

verus! {

/// Who authored a message of a conversation.
#[derive(Clone, Copy, Debug, PartialEq, Eq, Structural)]
pub enum Role {
    System,
    User,
    Assistant,
    Tool,
    Function,
}

/// `serde_json::Error`, carried through and never looked into.
#[verifier::external_type_specification]
#[verifier::external_body]
pub struct ExJsonError(serde_json::Error);

/// The JSON text that stands for a role in a transcript log: the lower-case
/// name of the role as a JSON string.
pub open spec fn role_json(role: Role) -> Seq<char> {
    match role {
        Role::System => "\"system\""@,
        Role::User => "\"user\""@,
        Role::Assistant => "\"assistant\""@,
        Role::Tool => "\"tool\""@,
        Role::Function => "\"function\""@,
    }
}

/// The role that `serde_json::from_str` reads from a text, if it reads one.
pub uninterp spec fn role_from_json(text: Seq<char>) -> Option<Role>;

/// Whether each of the five tags is read back as the role that it was written
/// for. `Role::check_tags` shows that it is so.
pub open spec fn tags_read_back() -> bool {
    forall|role: Role| role_from_json(#[trigger] role_json(role)) == Some(role)
}

/// `serde_json::to_string` on `async_openai::types::Role`. The role is a unit
/// variant renamed to lower case, which serde_json writes as a JSON string;
/// writing into memory does not fail.
#[verifier::external_body]
fn json_of_role(role: Role) -> (res: Result<String, serde_json::Error>)
    ensures
        res is Ok,
        res->Ok_0@ == role_json(role),
{
    let outside = match role {
        Role::System => async_openai::types::Role::System,
        Role::User => async_openai::types::Role::User,
        Role::Assistant => async_openai::types::Role::Assistant,
        Role::Tool => async_openai::types::Role::Tool,
        Role::Function => async_openai::types::Role::Function,
    };
    serde_json::to_string(&outside)
}

/// `serde_json::from_str` into `async_openai::types::Role`. What it accepts is
/// JSON, with its white space and escapes, so the result is only named; of the
/// five tags that `serde_json::to_string` writes it gives back the role.
#[verifier::external_body]
fn role_of_json(text: &str) -> (res: Result<Role, serde_json::Error>)
    ensures
        res is Ok ==> role_from_json(text@) == Some(res->Ok_0),
        res is Err ==> role_from_json(text@) is None,
        forall|r: Role| text@ == #[trigger] role_json(r) ==> res is Ok && res->Ok_0 == r,
{
    match serde_json::from_str::<async_openai::types::Role>(text) {
        Ok(async_openai::types::Role::System) => Ok(Role::System),
        Ok(async_openai::types::Role::User) => Ok(Role::User),
        Ok(async_openai::types::Role::Assistant) => Ok(Role::Assistant),
        Ok(async_openai::types::Role::Tool) => Ok(Role::Tool),
        Ok(async_openai::types::Role::Function) => Ok(Role::Function),
        Err(e) => Err(e),
    }
}

impl Role {
    /// The tag written in front of a message in a transcript log.
    pub fn to_json(self) -> (text: String)
        ensures
            text@ == role_json(self),
    {
        match json_of_role(self) {
            Ok(t) => t,
            Err(_) => unreached(),
        }
    }

    /// Reads a tag back; `None` where the text is no JSON for a role. A tag
    /// that `to_json` wrote gives its role.
    pub fn from_json(text: &str) -> (role: Option<Role>)
        ensures
            role == role_from_json(text@),
            forall|r: Role| text@ == #[trigger] role_json(r) ==> role == Some(r),
    {
        match role_of_json(text) {
            Ok(r) => Some(r),
            Err(_) => None,
        }
    }

    /// Reads each tag back, once, and tells whether each gave its role. It
    /// does: this is what lets a proof rely on `tags_read_back`.
    pub fn check_tags() -> (yes: bool)
        ensures
            yes,
            tags_read_back(),
    {
        let system = Role::from_json(Role::System.to_json().as_str());
        let user = Role::from_json(Role::User.to_json().as_str());
        let assistant = Role::from_json(Role::Assistant.to_json().as_str());
        let tool = Role::from_json(Role::Tool.to_json().as_str());
        let function = Role::from_json(Role::Function.to_json().as_str());
        assert forall|role: Role| role_from_json(#[trigger] role_json(role)) == Some(role) by {
            match role {
                Role::System => {
                    assert(system == Some(role));
                },
                Role::User => {
                    assert(user == Some(role));
                },
                Role::Assistant => {
                    assert(assistant == Some(role));
                },
                Role::Tool => {
                    assert(tool == Some(role));
                },
                Role::Function => {
                    assert(function == Some(role));
                },
            }
        }
        system == Some(Role::System) && user == Some(Role::User) && assistant == Some(
            Role::Assistant,
        ) && tool == Some(Role::Tool) && function == Some(Role::Function)
    }
}

} // verus!
