use guild_commands::codec::{decode_record, encode_record};
use guild_commands::dispatch::{
    decode_listing, fire_stored, fresh_stored_record, is_command_candidate, list_reply,
    register_reply, remove_reply, summary, EmbedField, ListedCommand, Reply,
};
use guild_commands::record::CommandRecord;
use guild_commands::registry::RegistryError;

fn s(x: &str) -> String {
    x.to_string()
}

fn text(content: &str, ephemeral: bool) -> Reply {
    Reply::Text { content: s(content), ephemeral }
}

#[test]
fn bots_and_direct_messages_are_ignored() {
    assert!(is_command_candidate(false, true));
    assert!(!is_command_candidate(true, true));
    assert!(!is_command_candidate(false, false));
}

#[test]
fn fresh_record_text() {
    let stored = fresh_stored_record(s("Hello!"), s("user42"));
    assert_eq!(stored, "0:6:Hello!user42");
}

#[test]
fn firing_a_stored_record() {
    let stored = fresh_stored_record(s("Hello!"), s("user42"));
    let (next, reply) = fire_stored(&stored).unwrap();
    assert_eq!(reply, "Hello!");
    assert_eq!(next, "1:6:Hello!user42");
    let (again, _) = fire_stored(&next).unwrap();
    let rec = decode_record(&again).unwrap();
    assert_eq!(rec.invocation_count, 2);
    assert_eq!(rec.author_id, "user42");
}

#[test]
fn firing_errors() {
    assert_eq!(fire_stored("not a record"), Err(RegistryError::Malformed));
    let full = encode_record(&CommandRecord {
        output: s("x"),
        author_id: s("a"),
        invocation_count: usize::MAX,
    });
    assert_eq!(fire_stored(&full), Err(RegistryError::CounterExhausted));
}

#[test]
fn listing_skips_malformed_records() {
    let pairs = vec![
        (s("!a"), s("2:1:xu1")),
        (s("!bad"), s("garbage")),
        (s("!c"), s("0:2:yzu2")),
    ];
    let out = decode_listing(&pairs);
    assert_eq!(out.len(), 2);
    assert_eq!(out[0].0, "!a");
    assert_eq!(out[0].1.output, "x");
    assert_eq!(out[0].1.author_id, "u1");
    assert_eq!(out[0].1.invocation_count, 2);
    assert_eq!(out[1].0, "!c");
    assert_eq!(out[1].1.output, "yz");
    assert_eq!(out[1].1.author_id, "u2");
    assert!(decode_listing(&vec![]).is_empty());
}

#[test]
fn replies_to_register_and_remove() {
    assert_eq!(register_reply(), text("Command added!", false));
    assert_eq!(remove_reply(false, &s("!hi")), text("No such command exists", true));
    assert_eq!(remove_reply(true, &s("!hi")), text("Removed `!hi` command", false));
}

#[test]
fn list_replies() {
    assert_eq!(list_reply(&vec![]), text("No command is registered on this server :(", false));
    let cmds = vec![
        ListedCommand {
            trigger: s("!hi"),
            author_name: s("alice"),
            invocation_count: 12,
            output: s("Hello!"),
        },
        ListedCommand {
            trigger: s("!bye"),
            author_name: s("bob"),
            invocation_count: 0,
            output: s("Bye"),
        },
    ];
    assert_eq!(summary(&cmds[0]), "Added by: alice\nInvoked 12 time(s)\nOutput: Hello!");
    assert_eq!(
        list_reply(&cmds),
        Reply::Embed {
            title: s("List of commands"),
            fields: vec![
                EmbedField {
                    name: s("!hi"),
                    value: s("Added by: alice\nInvoked 12 time(s)\nOutput: Hello!"),
                },
                EmbedField {
                    name: s("!bye"),
                    value: s("Added by: bob\nInvoked 0 time(s)\nOutput: Bye"),
                },
            ],
        }
    );
}
