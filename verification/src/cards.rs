//! What a game connection leaves on screen: nothing.
use crate::commands::{command_of, Command};
use crate::frame::{ended, frame_step, refused, ConnView, PacketType, StepView};
use crate::message::MessageView;
use crate::payload::{clear_cmd, stamped, CmdView};
use crate::publications::{
    clears_of, law_publications_never_ghost, lemma_withdrawn, published, Publication,
    MAX_PUBLICATIONS,
};
use crate::stream::{conversation, delivered, first_packet, payload_text};
use crate::user::UserView;
use crate::ws::{activity_step, message_step, SlotModel};
use vstd::prelude::*;

verus! {

/// Whether a command shows a card of `pid`.
pub open spec fn shows(cmd: CmdView, pid: u64) -> bool {
    cmd.cmd == "SET_ACTIVITY"@ && cmd.pid() == pid && cmd.activity() is Some
}

/// Whether a command clears the card of `pid`.
pub open spec fn clears(cmd: CmdView, pid: u64) -> bool {
    cmd.cmd == "SET_ACTIVITY"@ && cmd.pid() == pid && cmd.args is Some && cmd.activity() is None
}

/// Whether a card of `pid` is on screen after `cmds`, when one was before or
/// not.
pub open spec fn shown_after(before: bool, cmds: Seq<CmdView>, pid: u64) -> bool
    decreases cmds.len(),
{
    if cmds.len() == 0 {
        before
    } else if shows(cmds.last(), pid) {
        true
    } else if clears(cmds.last(), pid) {
        false
    } else {
        shown_after(before, cmds.drop_last(), pid)
    }
}

/// Whether a connection remembers that `pid` published.
pub open spec fn remembers(publications: Seq<Publication>, pid: u64) -> bool {
    exists|app: Option<Seq<char>>| #[trigger] publications.contains((pid, app))
}

proof fn lemma_shown_chain(before: bool, a: Seq<CmdView>, b: Seq<CmdView>, pid: u64)
    ensures
        shown_after(before, a + b, pid) == shown_after(shown_after(before, a, pid), b, pid),
    decreases b.len(),
{
    if b.len() == 0 {
        assert(a + b =~= a);
    } else {
        assert((a + b).drop_last() =~= a + b.drop_last());
        lemma_shown_chain(before, a, b.drop_last(), pid);
    }
}

/// The clears of what is remembered take every remembered card down.
proof fn lemma_clears(before: bool, publications: Seq<Publication>, pid: u64)
    requires
        before ==> remembers(publications, pid),
    ensures
        !shown_after(before, clears_of(publications), pid),
    decreases publications.len(),
{
    let cmds = clears_of(publications);
    if publications.len() == 0 {
        if before {
            let app = choose|app: Option<Seq<char>>| #[trigger] publications.contains((pid, app));
            assert(false);
        }
    } else {
        let last = publications.last();
        assert(cmds.last() == clear_cmd(last.1, last.0));
        assert(cmds.drop_last() =~= clears_of(publications.drop_last()));
        if last.0 != pid {
            if before {
                let app = choose|app: Option<Seq<char>>| #[trigger]
                    publications.contains((pid, app));
                let i = choose|i: int|
                    0 <= i < publications.len() && publications[i] == (pid, app);
                assert(publications.drop_last()[i] == (pid, app));
                assert(publications.drop_last().contains((pid, app)));
            }
            lemma_clears(before, publications.drop_last(), pid);
        }
    }
}

/// An activity command keeps every shown card remembered.
proof fn lemma_activity(before: bool, slot: SlotModel, sent: CmdView, pid: u64)
    requires
        command_of(sent.cmd) == Command::SetActivity,
        before ==> remembers(slot.publications, pid),
    ensures
        ({
            let step = activity_step(slot, sent);
            shown_after(before, step.forward, pid) ==> remembers(step.slot.publications, pid)
        }),
{
    reveal_with_fuel(shown_after, 3);
    let cmd = stamped(sent, slot.client_id);
    let step = activity_step(slot, sent);
    assert(cmd.cmd == "SET_ACTIVITY"@);
    assert(seq![cmd].drop_last() =~= Seq::<CmdView>::empty());
    if cmd.args is Some && cmd.activity() is None {
        if cmd.pid() != pid && before {
            let app = choose|app: Option<Seq<char>>| #[trigger]
                slot.publications.contains((pid, app));
            lemma_withdrawn(slot.publications, cmd.pid(), (pid, app));
        }
    } else if cmd.args is Some {
        let all = published(slot.publications, cmd.pid(), cmd.application_id);
        let kept = step.slot.publications;
        if cmd.pid() == pid {
            assert(kept.last() == (pid, cmd.application_id));
            assert(kept.contains((pid, cmd.application_id)));
        } else if before {
            let app = choose|app: Option<Seq<char>>| #[trigger]
                slot.publications.contains((pid, app));
            law_publications_never_ghost(
                slot.publications,
                cmd.pid(),
                cmd.application_id,
                (pid, app),
            );
            if !kept.contains((pid, app)) {
                assert(all[0] == (pid, app));
            }
        }
        if all.len() > MAX_PUBLICATIONS {
            let gone = clear_cmd(all[0].1, all[0].0);
            assert(step.forward =~= seq![cmd, gone]);
            assert(seq![cmd, gone].drop_last() =~= seq![cmd]);
            assert(seq![cmd, gone].last() == gone);
        }
    }
}

proof fn lemma_other(before: bool, cmd: CmdView, pid: u64)
    requires
        cmd.cmd != "SET_ACTIVITY"@,
    ensures
        shown_after(before, seq![cmd], pid) == before,
{
    reveal_with_fuel(shown_after, 2);
    assert(seq![cmd].drop_last() =~= Seq::<CmdView>::empty());
}

/// One step of an IPC connection: shown cards stay remembered, and none
/// outlives the end.
proof fn lemma_frame(
    before: bool,
    conn: ConnView,
    user: UserView,
    kind: PacketType,
    payload: Option<Seq<char>>,
    pid: u64,
)
    requires
        before ==> remembers(conn.slot.publications, pid),
    ensures
        ({
            let step = frame_step(conn, user, kind, payload);
            &&& shown_after(before, step.forward, pid) ==> remembers(
                step.conn.slot.publications,
                pid,
            )
            &&& step.close ==> !shown_after(before, step.forward, pid)
        }),
{
    let step = frame_step(conn, user, kind, payload);
    lemma_clears(before, conn.slot.publications, pid);
    if kind == PacketType::Frame && conn.handshake {
        if let Some(text) = payload {
            if let Some(cmd) = crate::payload::parsed_cmd(text) {
                if command_of(cmd.cmd) == Command::SetActivity {
                    lemma_activity(before, conn.slot, cmd, pid);
                } else {
                    lemma_other(before, cmd, pid);
                }
            }
        }
    }
}

/// The same on the wire, where a frame may fail to be written.
proof fn lemma_delivered(before: bool, step: StepView, pid: u64)
    requires
        shown_after(before, step.forward, pid) ==> remembers(step.conn.slot.publications, pid),
        step.close ==> !shown_after(before, step.forward, pid),
    ensures
        ({
            let packet = delivered(step);
            &&& shown_after(before, packet.forward, pid) ==> remembers(
                packet.conn.slot.publications,
                pid,
            )
            &&& packet.close ==> !shown_after(before, packet.forward, pid)
        }),
{
    let shown = shown_after(before, step.forward, pid);
    lemma_clears(shown, step.conn.slot.publications, pid);
    lemma_shown_chain(before, step.forward, clears_of(step.conn.slot.publications), pid);
}

proof fn lemma_conversation(
    before: bool,
    conn: ConnView,
    user: UserView,
    input: Seq<u8>,
    pid: u64,
)
    requires
        before ==> remembers(conn.slot.publications, pid),
    ensures
        conversation(conn, user, input).close,
        !shown_after(before, conversation(conn, user, input).forward, pid),
    decreases input.len(),
{
    let (step, end) = first_packet(conn, user, input);
    lemma_clears(before, conn.slot.publications, pid);
    lemma_delivered(before, ended(conn, None), pid);
    if input.len() >= 8 {
        let length = crate::frame::le_value(input.subrange(4, 8));
        match crate::frame::header_check(
            crate::frame::le_value(input.take(4)) as u32,
            length as u32,
        ) {
            Err(refusal) => {
                lemma_delivered(before, refused(conn, refusal), pid);
            },
            Ok(kind) => {
                if input.len() >= 8 + length {
                    let text = payload_text(input.subrange(8, 8 + length));
                    lemma_frame(before, conn, user, kind, text, pid);
                    lemma_delivered(before, frame_step(conn, user, kind, text), pid);
                }
            },
        }
    }
    if !step.close {
        let shown = shown_after(before, step.forward, pid);
        let rest = input.skip(end);
        lemma_conversation(shown, step.conn, user, rest, pid);
        lemma_shown_chain(before, step.forward, conversation(step.conn, user, rest).forward, pid);
    }
}

/// However an IPC connection goes, whatever its client sends, it ends, and
/// no card of it stays on screen: the last word on every process that it
/// published for is a clear.
pub proof fn law_ipc_leaves_no_card(user: UserView, input: Seq<u8>, conn: ConnView, pid: u64)
    requires
        conn.slot.publications.len() == 0,
    ensures
        conversation(conn, user, input).close,
        !shown_after(false, conversation(conn, user, input).forward, pid),
{
    lemma_conversation(false, conn, user, input, pid);
}

/// Commands that a game websocket forwards for the messages of a client, up
/// to and with the clears at its end.
pub open spec fn session(
    slot: SlotModel,
    messages: Seq<MessageView>,
    user: UserView,
    set_activity: bool,
    secondary: bool,
) -> Seq<CmdView>
    decreases messages.len(),
{
    if messages.len() == 0 {
        clears_of(slot.publications)
    } else {
        let step = message_step(slot, messages[0], user, set_activity, secondary);
        step.forward + session(step.slot, messages.drop_first(), user, set_activity, secondary)
    }
}

proof fn lemma_session(
    before: bool,
    slot: SlotModel,
    messages: Seq<MessageView>,
    user: UserView,
    set_activity: bool,
    secondary: bool,
    pid: u64,
)
    requires
        before ==> remembers(slot.publications, pid),
    ensures
        !shown_after(before, session(slot, messages, user, set_activity, secondary), pid),
    decreases messages.len(),
{
    if messages.len() == 0 {
        lemma_clears(before, slot.publications, pid);
    } else {
        let step = message_step(slot, messages[0], user, set_activity, secondary);
        if let MessageView::Text(text) = messages[0] {
            if let Some(cmd) = crate::payload::parsed_cmd(text) {
                if command_of(cmd.cmd) == Command::SetActivity {
                    lemma_activity(before, slot, cmd, pid);
                } else {
                    lemma_other(before, cmd, pid);
                }
            }
        }
        let shown = shown_after(before, step.forward, pid);
        let rest = session(step.slot, messages.drop_first(), user, set_activity, secondary);
        lemma_session(
            shown,
            step.slot,
            messages.drop_first(),
            user,
            set_activity,
            secondary,
            pid,
        );
        lemma_shown_chain(before, step.forward, rest, pid);
    }
}

/// However a websocket connection goes, no card of it stays on screen: the
/// last word on every process that it published for is a clear.
pub proof fn law_websocket_leaves_no_card(
    slot: SlotModel,
    messages: Seq<MessageView>,
    user: UserView,
    set_activity: bool,
    secondary: bool,
    pid: u64,
)
    requires
        slot.publications.len() == 0,
    ensures
        !shown_after(false, session(slot, messages, user, set_activity, secondary), pid),
{
    lemma_session(false, slot, messages, user, set_activity, secondary, pid);
}

} // verus!
