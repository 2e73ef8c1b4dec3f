//! The four roles a chat message can have.

use vstd::prelude::*;
use crate::text::str_equal;

verus! {

/// Who wrote a message.
#[derive(Debug, Clone, Copy, PartialEq, Eq, Structural, Hash)]
pub enum ChatMessageRole {
    System,
    User,
    Assistant,
    Tool,
}

/// The colour a role is shown in.
#[derive(Debug, Clone, Copy, PartialEq, Eq, Structural, Hash)]
pub enum RoleColor {
    Magenta,
    Blue,
    Green,
    Yellow,
}

/// The token that stands for `role` in a sample record.
pub open spec fn role_token(role: ChatMessageRole) -> Seq<char> {
    match role {
        ChatMessageRole::System => "system"@,
        ChatMessageRole::User => "user"@,
        ChatMessageRole::Assistant => "assistant"@,
        ChatMessageRole::Tool => "tool"@,
    }
}

/// The role that `token` stands for, if it is one of the four tokens.
pub open spec fn role_of_token(token: Seq<char>) -> Option<ChatMessageRole> {
    if token == "system"@ {
        Some(ChatMessageRole::System)
    } else if token == "user"@ {
        Some(ChatMessageRole::User)
    } else if token == "assistant"@ {
        Some(ChatMessageRole::Assistant)
    } else if token == "tool"@ {
        Some(ChatMessageRole::Tool)
    } else {
        None
    }
}

/// The colour of each role.
pub open spec fn role_color(role: ChatMessageRole) -> RoleColor {
    match role {
        ChatMessageRole::System => RoleColor::Magenta,
        ChatMessageRole::User => RoleColor::Blue,
        ChatMessageRole::Assistant => RoleColor::Green,
        ChatMessageRole::Tool => RoleColor::Yellow,
    }
}

/// The four tokens are pairwise different.
pub proof fn lemma_tokens_differ()
    ensures
        "system"@ != "user"@,
        "system"@ != "assistant"@,
        "system"@ != "tool"@,
        "user"@ != "assistant"@,
        "user"@ != "tool"@,
        "assistant"@ != "tool"@,
{
    reveal_strlit("system");
    reveal_strlit("user");
    reveal_strlit("assistant");
    reveal_strlit("tool");
    assert("system"@.len() == 6 && "user"@.len() == 4 && "assistant"@.len() == 9 && "tool"@.len()
        == 4);
    assert("user"@[0] == 'u' && "tool"@[0] == 't');
}

/// Reading a role's token gives the role back.
pub proof fn lemma_role_token_round_trip(role: ChatMessageRole)
    ensures
        role_of_token(role_token(role)) == Some(role),
{
    lemma_tokens_differ();
}

/// Two different roles are shown in different colours.
pub proof fn lemma_role_colors_distinct(a: ChatMessageRole, b: ChatMessageRole)
    ensures
        role_color(a) == role_color(b) <==> a == b,
{
}

impl ChatMessageRole {
    /// The role's token, as it is written in a record and shown in a header.
    pub fn as_str(&self) -> (token: &'static str)
        ensures
            token@ == role_token(*self),
    {
        match self {
            ChatMessageRole::System => "system",
            ChatMessageRole::User => "user",
            ChatMessageRole::Assistant => "assistant",
            ChatMessageRole::Tool => "tool",
        }
    }

    /// The role's token as an owned string.
    pub fn to_string(&self) -> (token: String)
        ensures
            token@ == role_token(*self),
    {
        self.as_str().to_owned()
    }

    /// Reads a role token. Anything but the four tokens is no role.
    pub fn from_token(token: &str) -> (role: Option<ChatMessageRole>)
        ensures
            role == role_of_token(token@),
    {
        if str_equal(token, "system") {
            Some(ChatMessageRole::System)
        } else if str_equal(token, "user") {
            Some(ChatMessageRole::User)
        } else if str_equal(token, "assistant") {
            Some(ChatMessageRole::Assistant)
        } else if str_equal(token, "tool") {
            Some(ChatMessageRole::Tool)
        } else {
            None
        }
    }

    /// The colour this role is shown in.
    pub fn color(&self) -> (color: RoleColor)
        ensures
            color == role_color(*self),
    {
        match self {
            ChatMessageRole::System => RoleColor::Magenta,
            ChatMessageRole::User => RoleColor::Blue,
            ChatMessageRole::Assistant => RoleColor::Green,
            ChatMessageRole::Tool => RoleColor::Yellow,
        }
    }
}

} // verus!
