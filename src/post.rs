//! The actions that rules perform, and the result that reaches the rule set.
use vstd::prelude::*;
use crate::text::{push_str, chars_of, push_all};
use crate::types::{button_text, key_text, MouseButton, Vk};

verus! {

/// An action.
#[derive(Clone, Debug, PartialEq, Eq)]
pub enum PostCondition {
    PressKey { vk: Vk },
    Click { button: MouseButton },
    Disconnect,
    Type { string: String },
    ShowPrice,
    InviteLast,
    Destroy,
    Downscaling { enable: bool },
    SetKeySuppression { suppress: bool },
}

/// An action as a mathematical value.
pub enum PostModel {
    PressKey { vk: Vk },
    Click { button: MouseButton },
    Disconnect,
    Type { text: Seq<char> },
    ShowPrice,
    InviteLast,
    Destroy,
    Downscaling { enable: bool },
    SetKeySuppression { suppress: bool },
}

impl View for PostCondition {
    type V = PostModel;

    open spec fn view(&self) -> PostModel {
        match self {
            PostCondition::PressKey { vk } => PostModel::PressKey { vk: *vk },
            PostCondition::Click { button } => PostModel::Click { button: *button },
            PostCondition::Disconnect => PostModel::Disconnect,
            PostCondition::Type { string } => PostModel::Type { text: string@ },
            PostCondition::ShowPrice => PostModel::ShowPrice,
            PostCondition::InviteLast => PostModel::InviteLast,
            PostCondition::Destroy => PostModel::Destroy,
            PostCondition::Downscaling { enable } => PostModel::Downscaling { enable: *enable },
            PostCondition::SetKeySuppression { suppress } => PostModel::SetKeySuppression {
                suppress: *suppress,
            },
        }
    }
}

/// What an action reports back to the rule set.
#[derive(Clone, Copy, Debug, PartialEq, Eq, Structural)]
pub enum PostResult {
    Nothing,
    SetKeySuppression { suppress: bool },
}

/// The result that action `p` reports once performed: a change of key
/// suppression for the suppression actions, nothing for the others.
pub open spec fn post_result(p: PostModel) -> PostResult {
    match p {
        PostModel::SetKeySuppression { suppress } => PostResult::SetKeySuppression { suppress },
        _ => PostResult::Nothing,
    }
}

/// An action as it is written in a rule.
pub open spec fn action_text(p: PostModel) -> Seq<char> {
    match p {
        PostModel::PressKey { vk } => "key "@ + key_text(vk),
        PostModel::Click { button } => "click "@ + button_text(button),
        PostModel::Disconnect => "disconnect"@,
        PostModel::Type { text } => "type "@ + text,
        PostModel::ShowPrice => "price"@,
        PostModel::InviteLast => "invite"@,
        PostModel::Destroy => "destroy"@,
        PostModel::Downscaling { enable } => if enable {
            "downscale"@
        } else {
            "upscale"@
        },
        PostModel::SetKeySuppression { suppress } => if suppress {
            "disable"@
        } else {
            "enable"@
        },
    }
}

impl PostCondition {
    /// The result that this action reports once performed.
    pub fn result(&self) -> (r: PostResult)
        ensures
            r == post_result(self@),
    {
        match self {
            PostCondition::SetKeySuppression { suppress } => PostResult::SetKeySuppression {
                suppress: *suppress,
            },
            _ => PostResult::Nothing,
        }
    }

    /// Whether the action presses a key (the actions that key suppression holds back).
    pub fn is_key_press(&self) -> (r: bool)
        ensures
            r == (self@ is PressKey),
    {
        match self {
            PostCondition::PressKey { .. } => true,
            _ => false,
        }
    }

    /// Appends the action as it is written in a rule.
    pub fn push_text(&self, out: &mut Vec<char>)
        ensures
            final(out)@ == old(out)@ + action_text(self@),
    {
        let ghost start = out@;
        match self {
            PostCondition::PressKey { vk } => {
                push_str(out, "key ");
                vk.push_text(out);
            },
            PostCondition::Click { button } => {
                push_str(out, "click ");
                button.push_text(out);
            },
            PostCondition::Disconnect => push_str(out, "disconnect"),
            PostCondition::Type { string } => {
                push_str(out, "type ");
                let cs = chars_of(string.as_str());
                push_all(out, &cs);
            },
            PostCondition::ShowPrice => push_str(out, "price"),
            PostCondition::InviteLast => push_str(out, "invite"),
            PostCondition::Destroy => push_str(out, "destroy"),
            PostCondition::Downscaling { enable } => {
                if *enable {
                    push_str(out, "downscale");
                } else {
                    push_str(out, "upscale");
                }
            },
            PostCondition::SetKeySuppression { suppress } => {
                if *suppress {
                    push_str(out, "disable");
                } else {
                    push_str(out, "enable");
                }
            },
        }
        assert(out@ =~= start + action_text(self@));
    }
}

} // verus!
