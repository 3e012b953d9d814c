//! Implementations of the command handlers.

use vstd::prelude::*;

use crate::datastore::MemoryRegistry;
use crate::datastore::groups_in;
use crate::datastore::hash_key_spec;
use crate::datastore::saved;
use crate::errors::DatastoreError;
use crate::types::Command;
use crate::types::MessageContext;
use crate::utils::escape_markdown;
use crate::utils::escape_spec;
use crate::utils::join_strings;
use crate::utils::join_with;

verus! {

/// The normalized serialization of `s` read as an absolute URL, or `None`
/// when `s` is not one.
pub uninterp spec fn url_parse(s: Seq<char>) -> Option<Seq<char>>;

/// Relies on `url::Url::parse`: accepts exactly the syntactically valid
/// absolute URLs and yields the parsed URL's serialization.  The result
/// depends on the input string alone.
#[verifier::external_body]
fn parse_url(s: &str) -> (r: Option<String>)
    ensures
        r.deep_view() == url_parse(s@),
{
    match url::Url::parse(s) {
        Ok(u) => Some(String::from(u)),
        Err(_) => None,
    }
}

/// The static usage text of the help command.
pub open spec fn help_text_spec() -> Seq<char> {
    "Available commands:\n\n /help - show this help\n /groups - list all available groups, along with the invite link\n /add <name> <invite-url> - Register a new topic group"@
}

/// The reply to any group-scoped command invoked outside a group chat.
pub open spec fn group_only_text_spec() -> Seq<char> {
    "For technical reasons, this bot can only be used from within a group."@
}

/// The reply to a list request when nothing is registered yet.
pub open spec fn no_groups_text_spec() -> Seq<char> {
    "No topic groups registered so far."@
}

/// The reply when the registry could not be read.
pub open spec fn fetch_error_text_spec() -> Seq<char> {
    "Error while fetching groups from database."@
}

/// The reply when the registry could not be written.
pub open spec fn save_error_text_spec() -> Seq<char> {
    "Error while trying to save group."@
}

/// The confirmation reply after a successful save.
pub open spec fn saved_text_spec() -> Seq<char> {
    "Thanks, group was saved!"@
}

/// How to invoke the add command.
pub open spec fn usage_text_spec() -> Seq<char> {
    "Usage: /add <name> <invite-url>\nExample: /add Bot Development https://telegram.me/..."@
}

/// The reply to an add command with fewer than two parameters.
pub open spec fn not_enough_args_text_spec() -> Seq<char> {
    "Not enough arguments.\n"@ + usage_text_spec()
}

/// The reply to an add command whose last parameter is not a valid URL.
pub open spec fn bad_url_text_spec() -> Seq<char> {
    "Bad URL.\n"@ + usage_text_spec()
}

/// The static usage text of the help command.
pub fn help_text() -> (r: String)
    ensures
        r@ == help_text_spec(),
{
    "Available commands:\n\n /help - show this help\n /groups - list all available groups, along with the invite link\n /add <name> <invite-url> - Register a new topic group".to_owned()
}

/// The reply to any group-scoped command invoked outside a group chat.
pub fn group_only_text() -> (r: String)
    ensures
        r@ == group_only_text_spec(),
{
    "For technical reasons, this bot can only be used from within a group.".to_owned()
}

/// The reply to a list request when nothing is registered yet.
pub fn no_groups_text() -> (r: String)
    ensures
        r@ == no_groups_text_spec(),
{
    "No topic groups registered so far.".to_owned()
}

/// The reply when the registry could not be read.
pub fn fetch_error_text() -> (r: String)
    ensures
        r@ == fetch_error_text_spec(),
{
    "Error while fetching groups from database.".to_owned()
}

/// The reply when the registry could not be written.
pub fn save_error_text() -> (r: String)
    ensures
        r@ == save_error_text_spec(),
{
    "Error while trying to save group.".to_owned()
}

/// The confirmation reply after a successful save.
pub fn saved_text() -> (r: String)
    ensures
        r@ == saved_text_spec(),
{
    "Thanks, group was saved!".to_owned()
}

/// How to invoke the add command.
pub fn usage_text() -> (r: String)
    ensures
        r@ == usage_text_spec(),
{
    "Usage: /add <name> <invite-url>\nExample: /add Bot Development https://telegram.me/...".to_owned()
}

/// The reply to an add command with fewer than two parameters.
pub fn not_enough_args_text() -> (r: String)
    ensures
        r@ == not_enough_args_text_spec(),
{
    let mut out = "Not enough arguments.\n".to_owned();
    let usage = usage_text();
    out.append(usage.as_str());
    out
}

/// The reply to an add command whose last parameter is not a valid URL.
pub fn bad_url_text() -> (r: String)
    ensures
        r@ == bad_url_text_spec(),
{
    let mut out = "Bad URL.\n".to_owned();
    let usage = usage_text();
    out.append(usage.as_str());
    out
}

/// One rendered line of the group listing: the topic is escaped, the URL is
/// interpolated as it is.
pub open spec fn group_line_spec(pair: (Seq<char>, Seq<char>)) -> Seq<char> {
    "- "@ + escape_spec(pair.0) + ": [Join]("@ + pair.1 + ")"@
}

/// The rendered lines of the group listing, one per fetched pair, in
/// fetch order.
pub open spec fn group_lines_spec(pairs: Seq<(Seq<char>, Seq<char>)>) -> Seq<Seq<char>>
    decreases pairs.len(),
{
    if pairs.len() == 0 {
        Seq::empty()
    } else {
        seq![group_line_spec(pairs[0])] + group_lines_spec(pairs.drop_first())
    }
}

/// The full reply to a list request over the fetched `(topic, url)` pairs.
pub open spec fn groups_reply_spec(pairs: Seq<(Seq<char>, Seq<char>)>) -> Seq<char> {
    if pairs.len() == 0 {
        no_groups_text_spec()
    } else {
        join_with(group_lines_spec(pairs), '\n')
    }
}

/// Render the fetched `(topic, url)` pairs as the list reply: one line per
/// pair, topics escaped, in fetch order.
pub fn render_groups(pairs: &Vec<(String, String)>) -> (r: String)
    ensures
        r@ == groups_reply_spec(pairs.deep_view()),
{
    if pairs.len() == 0 {
        return no_groups_text();
    }
    let ghost all = pairs.deep_view();
    let mut lines: Vec<String> = Vec::new();
    let mut i: usize = 0;
    proof {
        assert(lines.deep_view() =~= Seq::<Seq<char>>::empty());
        assert(all.skip(0) =~= all);
        assert(Seq::<Seq<char>>::empty() + group_lines_spec(all) =~= group_lines_spec(all));
    }
    while i < pairs.len()
        invariant
            i <= pairs.len(),
            all == pairs.deep_view(),
            lines.deep_view() + group_lines_spec(all.skip(i as int)) == group_lines_spec(all),
        decreases pairs.len() - i,
    {
        let ghost rest = all.skip(i as int);
        let ghost old_lines = lines.deep_view();
        proof {
            assert(rest[0] == all[i as int]);
            assert(all[i as int] == (pairs@[i as int].0@, pairs@[i as int].1@));
            assert(rest.drop_first() =~= all.skip(i as int + 1));
        }
        let mut line = "- ".to_owned();
        let escaped = escape_markdown(pairs[i].0.as_str());
        line.append(escaped.as_str());
        line.append(": [Join](");
        line.append(pairs[i].1.as_str());
        line.append(")");
        proof {
            assert(line@ == group_line_spec(all[i as int]));
        }
        lines.push(line);
        proof {
            assert(lines.deep_view() =~= old_lines.push(group_line_spec(all[i as int])));
            assert(group_lines_spec(rest) == seq![group_line_spec(rest[0])] + group_lines_spec(
                rest.drop_first()));
            assert(old_lines + (seq![group_line_spec(rest[0])] + group_lines_spec(
                rest.drop_first())) =~= lines.deep_view() + group_lines_spec(rest.drop_first()));
        }
        i = i + 1;
    }
    proof {
        assert(all.skip(pairs@.len() as int) =~= Seq::<(Seq<char>, Seq<char>)>::empty());
        assert(lines.deep_view() + Seq::<Seq<char>>::empty() =~= lines.deep_view());
    }
    join_strings(&lines, '\n')
}

/// Log the command, don't do anything else.
///
/// The logging itself is I/O and belongs to the caller; the observable
/// behaviour of the default handler is exactly "no reply".
pub fn handle_log(command: &Command, message: &MessageContext) -> (r: Option<String>)
    ensures
        r is None,
{
    None
}

/// Return help output.
pub fn handle_help(command: &Command, message: &MessageContext) -> (r: Option<String>)
    ensures
        r matches Some(t) && t@ == help_text_spec(),
{
    Some(help_text())
}

/// Return list of groups.
///
/// Only meaningful from within a group chat; a direct chat gets the fixed
/// group-only reply and the registry is not consulted.
pub fn handle_groups(command: &Command, message: &MessageContext, registry: &MemoryRegistry) -> (r:
    Option<String>)
    ensures
        !message.is_group ==> (r matches Some(t) && t@ == group_only_text_spec()),
        message.is_group ==> (r matches Some(t) && t@ == groups_reply_spec(
            groups_in(registry.rows(), hash_key_spec(message.chat_id as int)),
        )),
{
    if !message.is_group {
        return Some(group_only_text());
    }
    let pairs = registry.get_groups(message.chat_id);
    Some(render_groups(&pairs))
}

/// The topic name of an add command: all parameters except the last,
/// joined with single spaces.
pub open spec fn topic_of(params: Seq<Seq<char>>) -> Seq<char> {
    join_with(params.take(params.len() - 1), ' ')
}

/// Validate an add command: everything that happens before the registry
/// write.
///
/// Checked in this order: at least two parameters; the last parameter is a
/// syntactically valid absolute URL; the invoking chat is a group chat.
/// The error value is the exact reply to send back; the success value is
/// the topic name and the normalized URL to store.
pub fn add_validate(command: &Command, message: &MessageContext) -> (r: Result<
    (String, String),
    String,
>)
    ensures
        ({
            let params = command.params.deep_view();
            if params.len() < 2 {
                r matches Err(t) && t@ == not_enough_args_text_spec()
            } else if url_parse(params.last()) is None {
                r matches Err(t) && t@ == bad_url_text_spec()
            } else if !message.is_group {
                r matches Err(t) && t@ == group_only_text_spec()
            } else {
                r matches Ok(p) && p.0@ == topic_of(params) && Some(p.1@) == url_parse(
                    params.last(),
                )
            }
        }),
{
    // Rough validation
    if command.params.len() < 2 {
        return Err(not_enough_args_text());
    }

    // Parse URL
    let ghost params = command.params.deep_view();
    let last_index = command.params.len() - 1;
    proof {
        assert(params[last_index as int] == command.params@[last_index as int]@);
    }
    let url = match parse_url(command.params[last_index].as_str()) {
        Some(u) => u,
        None => {
            return Err(bad_url_text());
        },
    };

    if !message.is_group {
        return Err(group_only_text());
    }

    // Get topic group name
    let mut topic_parts: Vec<String> = Vec::new();
    let mut i: usize = 0;
    proof {
        assert(topic_parts.deep_view() =~= params.take(0));
    }
    while i < last_index
        invariant
            i <= last_index,
            last_index == command.params@.len() - 1,
            params == command.params.deep_view(),
            topic_parts.deep_view() == params.take(i as int),
        decreases last_index - i,
    {
        let ghost old_parts = topic_parts.deep_view();
        topic_parts.push(command.params[i].clone());
        proof {
            assert(topic_parts.deep_view() =~= old_parts.push(params[i as int]));
            assert(params.take(i + 1) =~= params.take(i as int).push(params[i as int]));
        }
        i = i + 1;
    }
    let topic = join_strings(&topic_parts, ' ');
    Ok((topic, url))
}

/// Add a new topic group.
///
/// On success the pair is persisted under the invoking chat's namespace;
/// every failure is reported as a reply and leaves the registry untouched.
pub fn handle_add(command: &Command, message: &MessageContext, registry: &mut MemoryRegistry) -> (r:
    Option<String>)
    ensures
        ({
            let params = command.params.deep_view();
            if params.len() < 2 {
                r matches Some(t) && t@ == not_enough_args_text_spec() && final(registry).rows()
                    == old(registry).rows()
            } else if url_parse(params.last()) is None {
                r matches Some(t) && t@ == bad_url_text_spec() && final(registry).rows() == old(
                    registry,
                ).rows()
            } else if !message.is_group {
                r matches Some(t) && t@ == group_only_text_spec() && final(registry).rows() == old(
                    registry,
                ).rows()
            } else {
                r matches Some(t) && t@ == saved_text_spec() && final(registry).rows() == saved(
                    old(registry).rows(),
                    hash_key_spec(message.chat_id as int),
                    topic_of(params),
                    url_parse(params.last()).unwrap(),
                )
            }
        }),
{
    match add_validate(command, message) {
        Err(reply) => Some(reply),
        Ok((topic, url)) => {
            // Store group
            registry.save_group(message.chat_id, topic.as_str(), url.as_str());
            Some(saved_text())
        },
    }
}

/// Turn the outcome of a registry fetch into the list reply: the rendered
/// listing on success, the fixed fetch-error reply on failure (the error
/// detail is logged by the caller, never shown to the user).
pub fn complete_groups(fetched: Result<Vec<(String, String)>, DatastoreError>) -> (r: String)
    ensures
        fetched matches Ok(pairs) ==> (r@ == groups_reply_spec(pairs.deep_view())),
        fetched is Err ==> r@ == fetch_error_text_spec(),
{
    match fetched {
        Ok(pairs) => render_groups(&pairs),
        Err(_) => fetch_error_text(),
    }
}

/// Turn the outcome of a registry write into the add reply: the
/// confirmation on success, the fixed save-error reply on failure.
pub fn complete_add(stored: Result<(), DatastoreError>) -> (r: String)
    ensures
        stored is Ok ==> r@ == saved_text_spec(),
        stored is Err ==> r@ == save_error_text_spec(),
{
    match stored {
        Ok(_) => saved_text(),
        Err(_) => save_error_text(),
    }
}

} // verus!
