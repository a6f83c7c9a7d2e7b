//! Remote-control commands, and the decisions of the two broadcast buses'
//! producers and subscribers. The buses themselves carry values between
//! tasks; each subscriber loop hands every event it receives to a step
//! function here and does what the step says.

use vstd::prelude::*;
use crate::path::{is_markdown, is_markdown_path};
use crate::text::same_text;
use crate::workspace::ActiveFile;

verus! {

/// A transient signal to every connected viewer.
#[derive(Clone, Debug)]
pub enum RemoteCommand {
    Navigate { url: String },
    Scroll { percent: u32 },
    Focus { workspace_id: String, file_path: String },
}

/// What a subscriber's receive returned.
pub enum BusEvent<T> {
    /// The next value in publish order.
    Message(T),
    /// The subscriber fell behind and this many values were dropped for it.
    Lagged(u64),
    /// No publisher is left.
    Closed,
}

/// What a subscriber does with an event.
#[derive(Debug)]
pub enum SubscriberStep<T> {
    /// Hand this to the client.
    Deliver(T),
    /// Wait for the next event.
    Skip,
    /// End the stream.
    Stop,
}

/// The commands that an active-file resolution publishes, in order: focus
/// the file in its workspace, then navigate to it.
pub fn active_commands(a: &ActiveFile) -> (r: Vec<RemoteCommand>)
    ensures
        r@ == seq![
            RemoteCommand::Focus { workspace_id: a.workspace_id, file_path: a.file_path },
            RemoteCommand::Navigate { url: a.url },
        ],
{
    let mut r: Vec<RemoteCommand> = Vec::new();
    r.push(
        RemoteCommand::Focus {
            workspace_id: a.workspace_id.clone(),
            file_path: a.file_path.clone(),
        },
    );
    r.push(RemoteCommand::Navigate { url: a.url.clone() });
    assert(r@ =~= seq![
        RemoteCommand::Focus { workspace_id: a.workspace_id, file_path: a.file_path },
        RemoteCommand::Navigate { url: a.url },
    ]);
    r
}

/// The scroll command for a requested position; a percentage is at most 100.
pub fn scroll_command(percent: u32) -> (r: RemoteCommand)
    ensures
        r == (RemoteCommand::Scroll { percent: if percent > 100 { 100 } else { percent } }),
{
    RemoteCommand::Scroll { percent: if percent > 100 { 100 } else { percent } }
}

/// One step of a reload stream subscribed to `subscribed_id`: a reload for
/// that workspace is delivered, one for any other workspace is dropped, a
/// lag is skipped so that the stream catches up, and a closed bus ends it.
pub fn reload_step(subscribed_id: &str, event: BusEvent<String>) -> (r: SubscriberStep<()>)
    ensures
        match event {
            BusEvent::Message(id) => if id@ == subscribed_id@ {
                r == SubscriberStep::Deliver(())
            } else {
                r == SubscriberStep::<()>::Skip
            },
            BusEvent::Lagged(_) => r == SubscriberStep::<()>::Skip,
            BusEvent::Closed => r == SubscriberStep::<()>::Stop,
        },
{
    match event {
        BusEvent::Message(id) => {
            if same_text(id.as_str(), subscribed_id) {
                SubscriberStep::Deliver(())
            } else {
                SubscriberStep::Skip
            }
        },
        BusEvent::Lagged(_) => SubscriberStep::Skip,
        BusEvent::Closed => SubscriberStep::Stop,
    }
}

/// One step of a command stream: every command is forwarded as received, a
/// lag is skipped, and a closed bus ends the stream.
pub fn command_step(event: BusEvent<RemoteCommand>) -> (r: SubscriberStep<RemoteCommand>)
    ensures
        match event {
            BusEvent::Message(c) => r == SubscriberStep::Deliver(c),
            BusEvent::Lagged(_) => r == SubscriberStep::<RemoteCommand>::Skip,
            BusEvent::Closed => r == SubscriberStep::<RemoteCommand>::Stop,
        },
{
    match event {
        BusEvent::Message(c) => SubscriberStep::Deliver(c),
        BusEvent::Lagged(_) => SubscriberStep::Skip,
        BusEvent::Closed => SubscriberStep::Stop,
    }
}

/// Whether a change event names some markdown file.
pub open spec fn touches_markdown(paths: Seq<String>) -> bool {
    exists|i: int| 0 <= i < paths.len() && is_markdown(#[trigger] paths[i]@)
}

/// Whether a watcher publishes a reload for a change event over `paths`:
/// only while it has not been told to stop, and only when a markdown file
/// changed.
pub fn should_publish_reload(stopped: bool, paths: &Vec<String>) -> (r: bool)
    ensures
        r == (!stopped && touches_markdown(paths@)),
{
    if stopped {
        return false;
    }
    let mut i: usize = 0;
    while i < paths.len()
        invariant
            !stopped,
            i <= paths.len(),
            forall|j: int| 0 <= j < i ==> !is_markdown(#[trigger] paths@[j]@),
        decreases paths.len() - i,
    {
        if is_markdown_path(paths[i].as_str()) {
            assert(is_markdown(paths@[i as int]@));
            return true;
        }
        i = i + 1;
    }
    false
}

} // verus!
