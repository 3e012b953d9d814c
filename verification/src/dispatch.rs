//! The per-update decision pipeline of the event loop.
//!
//! The loop around it (polling the transport, the worker pool, the real
//! registry backend) is ordinary unverified code; it feeds each inbound
//! text message through these functions and carries out the actions they
//! decide on.

use vstd::prelude::*;

use crate::commands::handle_add;
use crate::commands::handle_groups;
use crate::commands::handle_help;
use crate::commands::handle_log;
use crate::commands::bad_url_text_spec;
use crate::commands::group_only_text_spec;
use crate::commands::groups_reply_spec;
use crate::commands::help_text_spec;
use crate::commands::not_enough_args_text_spec;
use crate::commands::saved_text_spec;
use crate::commands::topic_of;
use crate::commands::url_parse;
use crate::datastore::MemoryRegistry;
use crate::datastore::RegistryRow;
use crate::datastore::groups_in;
use crate::datastore::hash_key_spec;
use crate::datastore::saved;
use crate::types::Command;
use crate::types::CommandModel;
use crate::types::MessageContext;
use crate::types::parse_spec;
use crate::utils::str_eq;

verus! {

/// Whether a parsed command is addressed to some other bot: it names a
/// receiver, and that receiver is not this bot's own username.
pub open spec fn addressed_elsewhere(m: CommandModel, own_username: Option<Seq<char>>) -> bool {
    m.receiver is Some && m.receiver != own_username
}

/// The outcome of dispatching one inbound text message: the optional reply
/// and the registry contents afterwards.
pub ghost struct DispatchOutcome {
    /// The reply to send back to the originating chat, if any.
    pub reply: Option<Seq<char>>,
    /// The registry rows after the handler ran.
    pub rows: Seq<RegistryRow>,
}

/// What the groups handler decides: the group-only reply outside a group
/// chat, otherwise the rendered listing; the registry is never written.
pub open spec fn groups_outcome(ctx: MessageContext, rows: Seq<RegistryRow>) -> DispatchOutcome {
    if !ctx.is_group {
        DispatchOutcome { reply: Some(group_only_text_spec()), rows }
    } else {
        DispatchOutcome {
            reply: Some(groups_reply_spec(groups_in(rows, hash_key_spec(ctx.chat_id as int)))),
            rows,
        }
    }
}

/// What the add handler decides: a validation error leaves the registry
/// untouched; a valid command stores the topic under the chat's namespace.
pub open spec fn add_outcome(m: CommandModel, ctx: MessageContext, rows: Seq<RegistryRow>)
    -> DispatchOutcome {
    if m.params.len() < 2 {
        DispatchOutcome { reply: Some(not_enough_args_text_spec()), rows }
    } else if url_parse(m.params.last()) is None {
        DispatchOutcome { reply: Some(bad_url_text_spec()), rows }
    } else if !ctx.is_group {
        DispatchOutcome { reply: Some(group_only_text_spec()), rows }
    } else {
        DispatchOutcome {
            reply: Some(saved_text_spec()),
            rows: saved(
                rows,
                hash_key_spec(ctx.chat_id as int),
                topic_of(m.params),
                url_parse(m.params.last()).unwrap(),
            ),
        }
    }
}

/// What one inbound text message leads to: nothing for a non-command or
/// for a command addressed to another bot; otherwise the outcome of the
/// handler selected by the command name.  Unrecognized names are
/// acknowledged silently, without a reply.
pub open spec fn dispatch_spec(
    text: Seq<char>,
    ctx: MessageContext,
    own_username: Option<Seq<char>>,
    rows: Seq<RegistryRow>,
) -> DispatchOutcome {
    match parse_spec(text) {
        None => DispatchOutcome { reply: None, rows },
        Some(m) => {
            if addressed_elsewhere(m, own_username) {
                DispatchOutcome { reply: None, rows }
            } else if m.name == "help"@ {
                DispatchOutcome { reply: Some(help_text_spec()), rows }
            } else if m.name == "groups"@ {
                groups_outcome(ctx, rows)
            } else if m.name == "add"@ {
                add_outcome(m, ctx, rows)
            } else {
                DispatchOutcome { reply: None, rows }
            }
        },
    }
}

/// Process one inbound text message against the given registry: parse the
/// text, drop commands addressed to other bots, route by the command name,
/// and run the selected handler.
pub fn run_command(
    registry: &mut MemoryRegistry,
    text: &str,
    message: &MessageContext,
    own_username: &Option<String>,
) -> (r: Option<String>)
    ensures
        (DispatchOutcome { reply: r.deep_view(), rows: final(registry).rows() }) == dispatch_spec(
            text@,
            *message,
            own_username.deep_view(),
            old(registry).rows(),
        ),
{
    // Dispatch command handlers
    let command = match Command::try_from(text) {
        Ok(c) => c,
        Err(_) => {
            return None;
        },
    };
    // Ignore commands that are not directed at this bot
    if let Some(receiver) = &command.receiver {
        let to_me = match own_username {
            Some(own) => str_eq(receiver.as_str(), own.as_str()),
            None => false,
        };
        if !to_me {
            return None;
        }
    }
    // Choose and run the handler
    if str_eq(command.name.as_str(), "help") {
        return handle_help(&command, message);
    }
    if str_eq(command.name.as_str(), "groups") {
        return handle_groups(&command, message, registry);
    }
    if str_eq(command.name.as_str(), "add") {
        return handle_add(&command, message, registry);
    }
    handle_log(&command, message)
}

/// A command addressed to a different bot name never produces a reply and
/// never touches the registry: no handler runs for it.
pub proof fn lemma_other_receiver_ignored(
    text: Seq<char>,
    ctx: MessageContext,
    own_username: Option<Seq<char>>,
    rows: Seq<RegistryRow>,
)
    requires
        parse_spec(text) matches Some(m) && addressed_elsewhere(m, own_username),
    ensures
        dispatch_spec(text, ctx, own_username, rows).reply is None,
        dispatch_spec(text, ctx, own_username, rows).rows == rows,
{
}

} // verus!
