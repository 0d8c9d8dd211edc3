use vstd::prelude::*;
use vstd::string::*;

use crate::codec::{decimal, decode_record, encode_record, encoding, parse_record, push_decimal};
use crate::record::{CommandRecord, RecordView};
use crate::registry::RegistryError;

verus! {

/// One field of a structured reply.
#[derive(Debug, PartialEq, Eq)]
pub struct EmbedField {
    pub name: String,
    pub value: String,
}

/// What the bot sends back for an event.
#[derive(Debug, PartialEq, Eq)]
pub enum Reply {
    /// Plain text; an ephemeral reply is shown to the requester only.
    Text { content: String, ephemeral: bool },
    /// A titled list of fields.
    Embed { title: String, fields: Vec<EmbedField> },
}

/// A registered command as the list reply shows it.
pub struct ListedCommand {
    pub trigger: String,
    pub author_name: String,
    pub invocation_count: usize,
    pub output: String,
}

pub open spec fn registered_ack_text() -> Seq<char> {
    "Command added!"@
}

pub open spec fn empty_list_text() -> Seq<char> {
    "No command is registered on this server :("@
}

pub open spec fn list_title() -> Seq<char> {
    "List of commands"@
}

pub open spec fn no_such_command_text() -> Seq<char> {
    "No such command exists"@
}

/// The confirmation that `trigger` was removed.
pub open spec fn removed_text(trigger: Seq<char>) -> Seq<char> {
    "Removed `"@ + trigger + "` command"@
}

/// The body of a list field.
pub open spec fn summary_text(author_name: Seq<char>, count: nat, output: Seq<char>) -> Seq<char> {
    "Added by: "@ + author_name + "\nInvoked "@ + decimal(count) + " time(s)\nOutput: "@ + output
}

/// Whether a reply is plain text with the given content and visibility.
pub open spec fn is_text(r: Reply, content: Seq<char>, ephemeral: bool) -> bool {
    match r {
        Reply::Text { content: c, ephemeral: e } => c@ == content && e == ephemeral,
        _ => false,
    }
}

/// The records that decode among stored (trigger, text) pairs, in order; malformed ones are skipped.
pub open spec fn decoded_listing(s: Seq<(Seq<char>, Seq<char>)>) -> Seq<(Seq<char>, RecordView)>
    decreases s.len(),
{
    if s.len() == 0 {
        Seq::empty()
    } else {
        let prefix = decoded_listing(s.drop_last());
        match parse_record(s.last().1) {
            Some(r) => prefix.push((s.last().0, r)),
            None => prefix,
        }
    }
}

/// Whether a chat message may be a command: it comes from a person, inside a server.
pub fn is_command_candidate(author_is_bot: bool, in_guild: bool) -> (r: bool)
    ensures
        r == (!author_is_bot && in_guild),
{
    !author_is_bot && in_guild
}

/// Stored text of a freshly registered command.
pub fn fresh_stored_record(output: String, author_id: String) -> (r: String)
    ensures
        r@ == encoding(RecordView::fresh(output@, author_id@)),
{
    let rec = CommandRecord::new(output, author_id);
    encode_record(&rec)
}

/// Counts an invocation of a stored record: the text to store back and the reply to send.
pub fn fire_stored(stored: &str) -> (r: Result<(String, String), RegistryError>)
    ensures
        match parse_record(stored@) {
            None => r == Err::<(String, String), RegistryError>(RegistryError::Malformed),
            Some(rec) => if rec.invocation_count >= usize::MAX {
                r == Err::<(String, String), RegistryError>(RegistryError::CounterExhausted)
            } else {
                r is Ok && r->Ok_0.0@ == encoding(rec.fired()) && r->Ok_0.1@ == rec.output
            },
        },
{
    match decode_record(stored) {
        None => Err(RegistryError::Malformed),
        Some(mut rec) => {
            if !rec.can_fire() {
                return Err(RegistryError::CounterExhausted);
            }
            rec.fire();
            let text = encode_record(&rec);
            Ok((text, rec.output))
        },
    }
}

/// Decodes the stored (trigger, text) pairs of a tenant, skipping malformed records.
pub fn decode_listing(pairs: &Vec<(String, String)>) -> (r: Vec<(String, CommandRecord)>)
    ensures
        r@.map_values(|p: (String, CommandRecord)| (p.0@, p.1@)) == decoded_listing(
            pairs@.map_values(|p: (String, String)| (p.0@, p.1@)),
        ),
{
    let ghost src = pairs@.map_values(|p: (String, String)| (p.0@, p.1@));
    let mut out: Vec<(String, CommandRecord)> = Vec::new();
    let mut i: usize = 0;
    while i < pairs.len()
        invariant
            i <= pairs@.len(),
            src == pairs@.map_values(|p: (String, String)| (p.0@, p.1@)),
            out@.map_values(|p: (String, CommandRecord)| (p.0@, p.1@)) == decoded_listing(
                src.take(i as int),
            ),
        decreases pairs@.len() - i,
    {
        let pair = &pairs[i];
        assert(src.take(i + 1).drop_last() =~= src.take(i as int));
        let ghost before = out@;
        match decode_record(pair.1.as_str()) {
            Some(rec) => {
                out.push((pair.0.clone(), rec));
                assert(out@.map_values(|p: (String, CommandRecord)| (p.0@, p.1@)) =~= before.map_values(
                    |p: (String, CommandRecord)| (p.0@, p.1@),
                ).push((pair.0@, rec@)));
            },
            None => {},
        }
        i = i + 1;
    }
    assert(src.take(pairs@.len() as int) =~= src);
    out
}

/// The acknowledgement of a registration.
pub fn register_reply() -> (r: Reply)
    ensures
        is_text(r, registered_ack_text(), false),
{
    Reply::Text { content: String::from_str("Command added!"), ephemeral: false }
}

/// The body of the list field of one command.
pub fn summary(cmd: &ListedCommand) -> (r: String)
    ensures
        r@ == summary_text(cmd.author_name@, cmd.invocation_count as nat, cmd.output@),
{
    let mut s = String::from_str("Added by: ");
    s.append(cmd.author_name.as_str());
    s.append("\nInvoked ");
    push_decimal(&mut s, cmd.invocation_count);
    s.append(" time(s)\nOutput: ");
    s.append(cmd.output.as_str());
    s
}

/// The reply to a list request: a notice when nothing is registered, otherwise
/// one field per command, named by its trigger, in the given order.
pub fn list_reply(cmds: &Vec<ListedCommand>) -> (r: Reply)
    ensures
        cmds@.len() == 0 ==> is_text(r, empty_list_text(), false),
        cmds@.len() > 0 ==> match r {
            Reply::Embed { title, fields } => title@ == list_title() && fields@.len()
                == cmds@.len() && forall|j: int|
                0 <= j < cmds@.len() ==> (#[trigger] fields@[j]).name@ == cmds@[j].trigger@
                    && fields@[j].value@ == summary_text(
                    cmds@[j].author_name@,
                    cmds@[j].invocation_count as nat,
                    cmds@[j].output@,
                ),
            _ => false,
        },
{
    if cmds.len() == 0 {
        return Reply::Text {
            content: String::from_str("No command is registered on this server :("),
            ephemeral: false,
        };
    }
    let mut fields: Vec<EmbedField> = Vec::new();
    let mut i: usize = 0;
    while i < cmds.len()
        invariant
            i <= cmds@.len(),
            fields@.len() == i,
            forall|j: int|
                0 <= j < i ==> (#[trigger] fields@[j]).name@ == cmds@[j].trigger@
                    && fields@[j].value@ == summary_text(
                    cmds@[j].author_name@,
                    cmds@[j].invocation_count as nat,
                    cmds@[j].output@,
                ),
        decreases cmds@.len() - i,
    {
        let cmd = &cmds[i];
        fields.push(EmbedField { name: cmd.trigger.clone(), value: summary(cmd) });
        i = i + 1;
    }
    Reply::Embed { title: String::from_str("List of commands"), fields }
}

/// The reply to a remove request, given whether a record was removed.
pub fn remove_reply(removed: bool, trigger: &String) -> (r: Reply)
    ensures
        !removed ==> is_text(r, no_such_command_text(), true),
        removed ==> is_text(r, removed_text(trigger@), false),
{
    if !removed {
        return Reply::Text { content: String::from_str("No such command exists"), ephemeral: true };
    }
    let mut s = String::from_str("Removed `");
    s.append(trigger.as_str());
    s.append("` command");
    Reply::Text { content: s, ephemeral: false }
}

} // verus!
