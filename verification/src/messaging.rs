//! Messages between scripts and the host.

use crate::script::{internal_error, joined, ErrorKind, ScriptError};
use std::collections::VecDeque;
use vstd::prelude::*;
use vstd::string::*;

verus! {

/// A message from the host that no script has taken yet.
#[derive(Debug)]
pub struct PendingMessage {
    pub json: String,
    pub data: Option<Vec<u8>>,
}

/// The channel to the host.
#[derive(Debug)]
pub struct Messaging {
    /// The code address of the function that delivers to the host.
    pub sink: Option<u64>,
    pub inbox: VecDeque<PendingMessage>,
    /// The script context that messages are for; zero if there is none.
    pub context: u64,
}

/// What a script did with a message.
#[derive(Clone, Copy, Debug, PartialEq, Eq, Structural)]
pub enum DispatchOutcome {
    /// No function takes messages.
    NoReceiver,
    /// The function failed, or did not want the message.
    Declined,
    Accepted,
}

/// A message that is put back is the first again.
pub open spec fn put_back(inbox: Seq<PendingMessage>, message: PendingMessage) -> Seq<
    PendingMessage,
> {
    seq![message] + inbox
}

impl Messaging {
    pub fn new() -> (messaging: Messaging)
        ensures
            messaging.sink is None,
            messaging.inbox@.len() == 0,
            messaging.context == 0,
    {
        Messaging { sink: None, inbox: VecDeque::new(), context: 0 }
    }

    /// The message to hand to the script next.
    pub fn next_delivery(&mut self) -> (message: Option<PendingMessage>)
        ensures
            message is None <==> old(self).inbox@.len() == 0,
            message is None ==> final(self).inbox@ == old(self).inbox@,
            message matches Some(m) ==> m == old(self).inbox@[0] && final(self).inbox@ == old(
                self,
            ).inbox@.drop_first(),
            *final(self) == (Messaging { inbox: final(self).inbox, ..*old(self) }),
    {
        let ghost before = self.inbox@;
        let message: Option<PendingMessage> = self.inbox.pop_front();
        if message.is_some() {
            assert(self.inbox@ =~= before.drop_first());
        }
        message
    }

    /// Takes in what the script did with a message. The result says whether to go on; a
    /// message that was not accepted waits again, before all others.
    pub fn delivered(&mut self, message: PendingMessage, outcome: DispatchOutcome) -> (more: bool)
        ensures
            more == (outcome == DispatchOutcome::Accepted),
            final(self).inbox@ == if outcome == DispatchOutcome::Accepted {
                old(self).inbox@
            } else {
                put_back(old(self).inbox@, message)
            },
            *final(self) == (Messaging { inbox: final(self).inbox, ..*old(self) }),
    {
        match outcome {
            DispatchOutcome::Accepted => true,
            _ => {
                self.inbox.push_front(message);
                false
            },
        }
    }

    /// How many messages wait.
    pub fn pending_message_count(&self) -> (count: usize)
        ensures
            count == self.inbox@.len(),
    {
        self.inbox.len()
    }

    /// What is to be sent to the host for a script.
    pub fn js_send(&self, argument_count: usize, json: Option<String>, data: DataArgument) -> (result:
        Result<SendRequest, ScriptError>)
        ensures
            result is Ok <==> send_problem(*self, argument_count, json, data) is None,
            result matches Err(error) ==> Some(error@) == send_problem(
                *self,
                argument_count,
                json,
                data,
            ),
            result matches Ok(request) ==> {
                &&& Some(request.sink) == self.sink
                &&& Some(request.json) == json
                &&& match data {
                    DataArgument::Bytes(bytes) => request.data == Some(bytes),
                    _ => request.data is None,
                }
            },
    {
        if argument_count < 1 {
            return Err(internal_error("send() requires a message"));
        }
        let json: String = match json {
            Some(json) => json,
            None => {
                return Err(internal_error("send() message must be a string"));
            },
        };
        let data: Option<Vec<u8>> = match data {
            DataArgument::Absent => None,
            DataArgument::Bytes(bytes) => Some(bytes),
            DataArgument::Failed(error) => {
                return Err(error);
            },
        };
        match self.sink {
            Some(sink) => Ok(SendRequest { sink, json, data }),
            None => Err(
                internal_error("send() has no transport; the agent did not install one"),
            ),
        }
    }
}

/// Takes in the function that delivers to the host.
pub fn install_message_sink(messaging: &mut Messaging, sink: u64)
    ensures
        *final(messaging) == (Messaging { sink: Some(sink), ..*old(messaging) }),
{
    messaging.sink = Some(sink);
}

/// Closes the channel: a message that arrives late must not reach a script that is going
/// away.
pub fn clear_message_sink(messaging: &mut Messaging)
    ensures
        final(messaging).sink is None,
        final(messaging).context == 0,
        final(messaging).inbox@.len() == 0,
{
    messaging.sink = None;
    messaging.context = 0;
    messaging.inbox.clear();
}

/// Takes in the script context that messages are for.
pub fn register_messaging_api(messaging: &mut Messaging, context: u64)
    ensures
        *final(messaging) == (Messaging { context, ..*old(messaging) }),
{
    messaging.context = context;
}

/// Takes in a message from the host. The result is the script context to deliver to; there
/// is none, and the message is dropped, while no script is there for it.
pub fn post_message(messaging: &mut Messaging, json: String, data: Option<Vec<u8>>) -> (context: Option<u64>)
    ensures
        old(messaging).context == 0 ==> context is None && *final(messaging) == *old(messaging),
        old(messaging).context != 0 ==> {
            &&& context == Some(old(messaging).context)
            &&& final(messaging).inbox@ == old(messaging).inbox@.push((PendingMessage { json, data }))
            &&& *final(messaging) == (Messaging { inbox: final(messaging).inbox, ..*old(messaging) })
        },
{
    if messaging.context == 0 {
        return None;
    }
    messaging.inbox.push_back(PendingMessage { json, data });
    Some(messaging.context)
}

/// The data that a script sends along with a message.
#[derive(Debug)]
pub enum DataArgument {
    /// Nothing, undefined or null.
    Absent,
    Bytes(Vec<u8>),
    /// A value that gives no bytes.
    Failed(ScriptError),
}

/// A message on its way to the host.
#[derive(Debug)]
pub struct SendRequest {
    pub sink: u64,
    pub json: String,
    pub data: Option<Vec<u8>>,
}

/// Why a message cannot be sent.
pub open spec fn send_problem(
    messaging: Messaging,
    argument_count: usize,
    json: Option<String>,
    data: DataArgument,
) -> Option<(ErrorKind, Seq<char>)> {
    if argument_count < 1 {
        Some((ErrorKind::InternalError, "send() requires a message"@))
    } else if json is None {
        Some((ErrorKind::InternalError, "send() message must be a string"@))
    } else if data is Failed {
        Some(data->Failed_0@)
    } else if messaging.sink is None {
        Some(
            (
                ErrorKind::InternalError,
                "send() has no transport; the agent did not install one"@,
            ),
        )
    } else {
        None
    }
}

/// What came of sending a message.
pub fn send_outcome(outcome: Result<(), String>) -> (result: Result<(), ScriptError>)
    ensures
        result is Ok <==> outcome is Ok,
        result matches Err(error) ==> error@ == (
            ErrorKind::InternalError,
            "send(): "@ + outcome->Err_0@,
        ),
{
    match outcome {
        Ok(_) => Ok(()),
        Err(error) => Err(
            ScriptError {
                kind: ErrorKind::InternalError,
                message: joined("send(): ", error.as_str()),
            },
        ),
    }
}

/// A message that the script does not accept is not lost and loses no place: the messages
/// that wait are those that waited before.
pub proof fn declined_messages_keep_their_places(inbox: Seq<PendingMessage>)
    requires
        inbox.len() > 0,
    ensures
        put_back(inbox.drop_first(), inbox[0]) == inbox,
{
    assert(put_back(inbox.drop_first(), inbox[0]) =~= inbox);
}

/// A message is sent if there is one, it is a text, its data is right, and there is a way to
/// the host; a message that is put back stands in front of the others.
pub proof fn messages_need_a_text_and_a_transport(
    messaging: Messaging,
    argument_count: usize,
    json: Option<String>,
    data: DataArgument,
    inbox: Seq<PendingMessage>,
    message: PendingMessage,
)
    ensures
        send_problem(messaging, argument_count, json, data) is None <==> argument_count >= 1 && json
            is Some && !(data is Failed) && messaging.sink is Some,
        put_back(inbox, message).len() == inbox.len() + 1,
        put_back(inbox, message)[0] == message,
        put_back(inbox, message).skip(1) == inbox,
{
    assert(put_back(inbox, message).skip(1) =~= inbox);
}

} // verus!
