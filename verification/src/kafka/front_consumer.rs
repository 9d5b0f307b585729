//! The front node's consumer of the main and the removal topic.
use vstd::prelude::*;
use crate::config::Config;
use crate::domain::log::CacheRecord;
use crate::storage::runtime::{after_removal, record_key, RuntimeStore};

verus! {

/// What a consumed message does to the cache.
#[derive(Clone, Copy, Debug, PartialEq, Eq, Structural)]
pub enum MessageAction {
    /// The message is none of this node's business.
    Ignore,
    /// The message carries an event published by another front node: cache it.
    Log,
    /// The message carries a removal marker: apply it.
    Remove,
}

/// The action for a message of `topic` whose `sender` header reads `sender` (`None`
/// when the message has no headers, no such header, or a value that is not UTF-8).
pub open spec fn action_for(
    main: Seq<char>,
    removal: Seq<char>,
    instance_id: Seq<char>,
    topic: Seq<char>,
    sender: Option<Seq<char>>,
) -> MessageAction {
    if topic == main {
        match sender {
            Some(s) => if s != instance_id {
                MessageAction::Log
            } else {
                MessageAction::Ignore
            },
            None => MessageAction::Ignore,
        }
    } else if topic == removal {
        MessageAction::Remove
    } else {
        MessageAction::Ignore
    }
}

/// A front node caches exactly the events on the main topic that another node sent, that
/// is, whose sender header is present and differs as text from its own instance id; it
/// applies as removal markers exactly the messages of the removal topic (when that is not
/// also the main topic); everything else it ignores.
pub proof fn law_caches_only_other_nodes_events(
    main: Seq<char>,
    removal: Seq<char>,
    instance_id: Seq<char>,
    topic: Seq<char>,
    sender: Option<Seq<char>>,
)
    ensures
        (action_for(main, removal, instance_id, topic, sender) == MessageAction::Log) <==> (topic
            == main && sender is Some && sender.unwrap() != instance_id),
        (action_for(main, removal, instance_id, topic, sender) == MessageAction::Remove) <==> (topic
            != main && topic == removal),
        (action_for(main, removal, instance_id, topic, sender) == MessageAction::Ignore) <==> ((topic
            != main && topic != removal) || (topic == main && (sender is None || sender.unwrap()
            == instance_id))),
{
}

/// Decides what a message of `topic` with sender `sender` does to the cache: events on
/// the main topic are cached when another front node sent them, and messages on the
/// removal topic are applied as removal markers.
pub fn message_action(config: &Config, topic: &str, sender: Option<&str>) -> (r: MessageAction)
    ensures
        r == action_for(
            config.kafka_topic_main@,
            config.kafka_topic_removal@,
            config.instance_id@,
            topic@,
            match sender {
                Some(s) => Some(s@),
                None => None,
            },
        ),
{
    let topic = String::from_str(topic);
    if topic == config.kafka_topic_main {
        match sender {
            Some(s) => {
                let s = String::from_str(s);
                if s != config.instance_id {
                    MessageAction::Log
                } else {
                    MessageAction::Ignore
                }
            },
            None => MessageAction::Ignore,
        }
    } else if topic == config.kafka_topic_removal {
        MessageAction::Remove
    } else {
        MessageAction::Ignore
    }
}

/// Carries out `action` with the event `record` of the message.
pub fn apply(store: &mut RuntimeStore, action: MessageAction, record: CacheRecord)
    requires
        old(store).wf(),
    ensures
        final(store).wf(),
        action == MessageAction::Log ==> final(store).events() == old(store).events().insert(
            record_key(record),
            record,
        ),
        action == MessageAction::Remove ==> final(store).events() == after_removal(
            old(store).events(),
            record,
        ),
        action == MessageAction::Ignore ==> final(store).events() == old(store).events(),
{
    match action {
        MessageAction::Log => store.log(record),
        MessageAction::Remove => store.remove(&record),
        MessageAction::Ignore => {},
    }
}


/// What waiting for the next message brought the front consumer.
#[derive(Clone, Copy, Debug, PartialEq, Eq, Structural)]
pub enum ConsumerEvent {
    /// A message arrived.
    Message,
    /// The topics do not exist yet.
    TopicUnavailable,
    /// Any other consumer error.
    Error,
}

/// What the front consumer does next.
#[derive(Clone, Copy, Debug, PartialEq, Eq, Structural)]
pub enum ConsumerStep {
    /// Process the message.
    Process,
    /// Wait a second and receive again.
    RetryLater,
    /// Stop the consumer with the error.
    Fail,
}

/// The front consumer's step on `event`: a missing topic means waiting and trying again,
/// any other error ends the consumer.
pub fn consumer_step(event: ConsumerEvent) -> (r: ConsumerStep)
    ensures
        event == ConsumerEvent::Message ==> r == ConsumerStep::Process,
        event == ConsumerEvent::TopicUnavailable ==> r == ConsumerStep::RetryLater,
        event == ConsumerEvent::Error ==> r == ConsumerStep::Fail,
{
    match event {
        ConsumerEvent::Message => ConsumerStep::Process,
        ConsumerEvent::TopicUnavailable => ConsumerStep::RetryLater,
        ConsumerEvent::Error => ConsumerStep::Fail,
    }
}

} // verus!
