//! Scenario tests for the handlers, the registry model and dispatch.

use groups_bot::commands::complete_add;
use groups_bot::commands::complete_groups;
use groups_bot::commands::add_validate;
use groups_bot::datastore::get_hash_key;
use groups_bot::datastore::MemoryRegistry;
use groups_bot::dispatch::run_command;
use groups_bot::errors::DatastoreError;
use groups_bot::types::Command;
use groups_bot::types::MessageContext;

const USAGE: &str = "Usage: /add <name> <invite-url>\nExample: /add Bot Development https://telegram.me/...";

fn group_chat() -> MessageContext {
    MessageContext { chat_id: -1001, is_group: true }
}

fn direct_chat() -> MessageContext {
    MessageContext { chat_id: 7, is_group: false }
}

#[test]
fn hash_key_is_prefix_and_decimal_id() {
    assert_eq!(get_hash_key(42), "topicgroups:42");
    assert_eq!(get_hash_key(0), "topicgroups:0");
    assert_eq!(get_hash_key(-1001), "topicgroups:-1001");
    assert_eq!(get_hash_key(i64::MIN), "topicgroups:-9223372036854775808");
    assert_eq!(get_hash_key(i64::MAX), "topicgroups:9223372036854775807");
}

#[test]
fn help_returns_static_usage_text() {
    let mut registry = MemoryRegistry::new();
    let reply = run_command(&mut registry, "/help", &direct_chat(), &None);
    assert_eq!(
        reply.as_deref(),
        Some(
            "Available commands:\n\n /help - show this help\n /groups - list all available \
             groups, along with the invite link\n /add <name> <invite-url> - Register a new \
             topic group"
        )
    );
}

#[test]
fn groups_outside_group_chat_is_refused() {
    let mut registry = MemoryRegistry::new();
    let reply = run_command(&mut registry, "/groups", &direct_chat(), &None);
    assert_eq!(
        reply.as_deref(),
        Some("For technical reasons, this bot can only be used from within a group.")
    );
    assert!(registry.get_groups(7).is_empty());
}

#[test]
fn groups_on_empty_registry_says_none_registered() {
    let mut registry = MemoryRegistry::new();
    let reply = run_command(&mut registry, "/groups", &group_chat(), &None);
    assert_eq!(reply.as_deref(), Some("No topic groups registered so far."));
}

#[test]
fn add_then_groups_lists_the_pair() {
    let mut registry = MemoryRegistry::new();
    let context = group_chat();

    let reply = run_command(
        &mut registry,
        "/add Bot Dev https://telegram.me/xyz",
        &context,
        &None,
    );
    assert_eq!(reply.as_deref(), Some("Thanks, group was saved!"));
    assert_eq!(
        registry.get_groups(context.chat_id),
        vec![("Bot Dev".to_string(), "https://telegram.me/xyz".to_string())]
    );

    let listing = run_command(&mut registry, "/groups", &context, &None);
    assert_eq!(
        listing.as_deref(),
        Some("- Bot Dev: [Join](https://telegram.me/xyz)")
    );
}

#[test]
fn add_with_one_argument_is_a_usage_error() {
    let mut registry = MemoryRegistry::new();
    let reply = run_command(&mut registry, "/add OnlyOneArg", &group_chat(), &None);
    assert_eq!(
        reply,
        Some(format!("Not enough arguments.\n{}", USAGE))
    );
    assert!(registry.get_groups(group_chat().chat_id).is_empty());
}

#[test]
fn add_with_invalid_url_is_a_usage_error() {
    let mut registry = MemoryRegistry::new();
    let reply = run_command(&mut registry, "/add Topic notaurl", &group_chat(), &None);
    assert_eq!(reply, Some(format!("Bad URL.\n{}", USAGE)));
    assert!(registry.get_groups(group_chat().chat_id).is_empty());
}

#[test]
fn add_outside_group_chat_is_refused() {
    let mut registry = MemoryRegistry::new();
    let reply = run_command(
        &mut registry,
        "/add Topic https://telegram.me/xyz",
        &direct_chat(),
        &None,
    );
    assert_eq!(
        reply.as_deref(),
        Some("For technical reasons, this bot can only be used from within a group.")
    );
    assert!(registry.get_groups(direct_chat().chat_id).is_empty());
}

#[test]
fn add_normalizes_the_stored_url() {
    let mut registry = MemoryRegistry::new();
    let context = group_chat();
    let reply = run_command(&mut registry, "/add T HTTPS://Example.COM", &context, &None);
    assert_eq!(reply.as_deref(), Some("Thanks, group was saved!"));
    assert_eq!(
        registry.get_groups(context.chat_id),
        vec![("T".to_string(), "https://example.com/".to_string())]
    );
}

#[test]
fn add_joins_all_but_last_parameter_into_the_topic() {
    let command = Command::try_from("/add Bot Development Chat https://telegram.me/xyz").unwrap();
    let validated = add_validate(&command, &group_chat()).unwrap();
    assert_eq!(validated.0, "Bot Development Chat");
    assert_eq!(validated.1, "https://telegram.me/xyz");
}

#[test]
fn add_overwrites_an_existing_topic() {
    let mut registry = MemoryRegistry::new();
    let context = group_chat();
    run_command(&mut registry, "/add T https://a.example/x", &context, &None);
    run_command(&mut registry, "/add T https://b.example/y", &context, &None);
    assert_eq!(
        registry.get_groups(context.chat_id),
        vec![("T".to_string(), "https://b.example/y".to_string())]
    );
}

#[test]
fn distinct_topics_survive_in_either_order() {
    let context = group_chat();

    let mut first = MemoryRegistry::new();
    run_command(&mut first, "/add A https://a.example/", &context, &None);
    run_command(&mut first, "/add B https://b.example/", &context, &None);

    let mut second = MemoryRegistry::new();
    run_command(&mut second, "/add B https://b.example/", &context, &None);
    run_command(&mut second, "/add A https://a.example/", &context, &None);

    let mut pairs_first = first.get_groups(context.chat_id);
    let mut pairs_second = second.get_groups(context.chat_id);
    pairs_first.sort();
    pairs_second.sort();
    assert_eq!(pairs_first, pairs_second);
    assert_eq!(pairs_first.len(), 2);
    assert!(pairs_first.contains(&("A".to_string(), "https://a.example/".to_string())));
    assert!(pairs_first.contains(&("B".to_string(), "https://b.example/".to_string())));
}

#[test]
fn every_distinct_topic_lands() {
    let mut registry = MemoryRegistry::new();
    let context = group_chat();
    run_command(&mut registry, "/add A https://a.example/", &context, &None);
    run_command(&mut registry, "/add B https://b.example/", &context, &None);
    run_command(&mut registry, "/add C https://c.example/", &context, &None);
    let pairs = registry.get_groups(context.chat_id);
    assert_eq!(pairs.len(), 3);
    assert!(pairs.contains(&("A".to_string(), "https://a.example/".to_string())));
    assert!(pairs.contains(&("B".to_string(), "https://b.example/".to_string())));
    assert!(pairs.contains(&("C".to_string(), "https://c.example/".to_string())));
}

#[test]
fn namespaces_of_distinct_chats_do_not_mix() {
    let mut registry = MemoryRegistry::new();
    let here = MessageContext { chat_id: 1, is_group: true };
    let there = MessageContext { chat_id: 2, is_group: true };
    run_command(&mut registry, "/add T https://a.example/", &here, &None);
    assert!(registry.get_groups(there.chat_id).is_empty());
    assert_eq!(registry.get_groups(here.chat_id).len(), 1);
}

#[test]
fn command_for_another_bot_is_ignored() {
    let mut registry = MemoryRegistry::new();
    let own = Some("GroupsBot".to_string());
    let reply = run_command(
        &mut registry,
        "/add@OtherBot T https://telegram.me/xyz",
        &group_chat(),
        &own,
    );
    assert_eq!(reply, None);
    assert!(registry.get_groups(group_chat().chat_id).is_empty());
}

#[test]
fn command_for_this_bot_runs() {
    let mut registry = MemoryRegistry::new();
    let own = Some("GroupsBot".to_string());
    let reply = run_command(
        &mut registry,
        "/add@GroupsBot T https://telegram.me/xyz",
        &group_chat(),
        &own,
    );
    assert_eq!(reply.as_deref(), Some("Thanks, group was saved!"));
    assert_eq!(registry.get_groups(group_chat().chat_id).len(), 1);
}

#[test]
fn addressed_command_without_own_name_is_ignored() {
    let mut registry = MemoryRegistry::new();
    let reply = run_command(&mut registry, "/help@SomeBot", &direct_chat(), &None);
    assert_eq!(reply, None);
}

#[test]
fn unrecognized_commands_get_no_reply() {
    let mut registry = MemoryRegistry::new();
    let reply = run_command(&mut registry, "/frobnicate a b", &group_chat(), &None);
    assert_eq!(reply, None);
}

#[test]
fn non_command_text_gets_no_reply() {
    let mut registry = MemoryRegistry::new();
    let reply = run_command(&mut registry, "just chatting", &group_chat(), &None);
    assert_eq!(reply, None);
}

#[test]
fn escaped_topics_render_escaped_but_urls_do_not() {
    let mut registry = MemoryRegistry::new();
    let context = group_chat();
    run_command(&mut registry, "/add a*b https://telegram.me/xyz", &context, &None);
    let listing = run_command(&mut registry, "/groups", &context, &None);
    assert_eq!(
        listing.as_deref(),
        Some("- a\\*b: [Join](https://telegram.me/xyz)")
    );
}

#[test]
fn storage_errors_become_generic_replies() {
    let fetch_failed = complete_groups(Err(DatastoreError::Redis("boom".to_string())));
    assert_eq!(fetch_failed, "Error while fetching groups from database.");

    let fetch_timeout = complete_groups(Err(DatastoreError::PoolTimeout("late".to_string())));
    assert_eq!(fetch_timeout, "Error while fetching groups from database.");

    let save_failed = complete_add(Err(DatastoreError::Redis("boom".to_string())));
    assert_eq!(save_failed, "Error while trying to save group.");

    let save_ok = complete_add(Ok(()));
    assert_eq!(save_ok, "Thanks, group was saved!");
}

#[test]
fn fetched_pairs_render_one_line_each() {
    let pairs = vec![
        ("Bot Dev".to_string(), "https://telegram.me/xyz".to_string()),
        ("Rust".to_string(), "https://telegram.me/rst".to_string()),
    ];
    let listing = complete_groups(Ok(pairs));
    assert_eq!(
        listing,
        "- Bot Dev: [Join](https://telegram.me/xyz)\n- Rust: [Join](https://telegram.me/rst)"
    );
}
