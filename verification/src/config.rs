//! Configuration of a front or back node, from the values of its environment.
use vstd::prelude::*;
use crate::error::AppError;

verus! {

/// The environment variables a node reads, each `None` when it is not set.
pub struct ConfigSource {
    pub kafka_topic_main: Option<String>,
    pub kafka_topic_removal: Option<String>,
    pub kafka_group_id: Option<String>,
    pub kafka_bootstrap_servers: Option<String>,
    pub database_url: Option<String>,
    pub service_discovery_self_url: Option<String>,
    pub hostname: Option<String>,
}

/// The configuration of a node.
#[derive(Clone, Debug)]
pub struct Config {
    pub kafka_topic_main: String,
    pub kafka_topic_removal: String,
    pub kafka_group_id: String,
    pub kafka_bootstrap_servers: String,
    pub database_url: String,
    pub instance_id: String,
    pub service_discovery_self_url: Option<String>,
}

/// The self URL that asks for the address to be taken from `HOSTNAME`.
pub open spec fn docker_host_marker() -> Seq<char> {
    "docker.host"@
}

/// The group id that asks for a fresh random group.
pub open spec fn random_group_marker() -> Seq<char> {
    "random"@
}

/// The first environment variable the configuration needs but does not have, in the
/// order they are read.
pub open spec fn first_missing(s: ConfigSource) -> Option<Seq<char>> {
    if s.kafka_topic_main is None {
        Some("KAFKA_TOPIC_MAIN"@)
    } else if s.kafka_topic_removal is None {
        Some("KAFKA_TOPIC_REMOVAL"@)
    } else if s.kafka_group_id is None {
        Some("KAFKA_GROUP_ID"@)
    } else if s.kafka_bootstrap_servers is None {
        Some("KAFKA_BOOTSTRAP_SERVERS"@)
    } else if s.database_url is None {
        Some("DATABASE_URL"@)
    } else if (s.service_discovery_self_url matches Some(u) && u@ == docker_host_marker())
        && s.hostname is None {
        Some("HOSTNAME"@)
    } else {
        None
    }
}

/// The advertised URL of a node: none, the given one, or the node's host name on port
/// 8080 when the given one is `docker.host`.
pub open spec fn self_url_of(s: ConfigSource) -> Option<Seq<char>> {
    match s.service_discovery_self_url {
        None => None,
        Some(u) => if u@ == docker_host_marker() {
            Some("http://"@ + s.hostname.unwrap()@ + ":8080"@)
        } else {
            Some(u@)
        },
    }
}

/// A lower-case hexadecimal digit.
pub open spec fn is_lower_hex(c: char) -> bool {
    ('0' <= c && c <= '9') || ('a' <= c && c <= 'f')
}

/// The hyphenated text form of a UUID: 36 characters, hyphens at positions 8, 13, 18 and
/// 23, lower-case hexadecimal digits elsewhere.
pub open spec fn is_uuid_text(s: Seq<char>) -> bool {
    &&& s.len() == 36
    &&& forall|i: int|
        0 <= i < 36 ==> if i == 8 || i == 13 || i == 18 || i == 23 {
            #[trigger] s[i] == '-'
        } else {
            is_lower_hex(s[i])
        }
}

/// A fresh random UUID (`uuid::Uuid::new_v4().to_string()`), in the hyphenated lower-case
/// text form that `Uuid`'s `Display` writes. Which UUID it is, is not stated: it is random.
#[verifier::external_body]
fn random_uuid() -> (r: String)
    ensures
        is_uuid_text(r@),
{
    uuid::Uuid::new_v4().to_string()
}

fn required(value: &Option<String>, name: &str) -> (r: Result<String, AppError>)
    ensures
        value matches Some(v) ==> (r matches Ok(x) && x@ == v@),
        value is None ==> (r matches Err(AppError::Custom(m)) && m@ == name@ + " must be set"@),
{
    match value {
        Some(v) => Ok(v.clone()),
        None => {
            let mut message = String::from_str(name);
            message.append(" must be set");
            Err(AppError::Custom(message))
        },
    }
}

fn text_equals(a: &String, b: &str) -> (r: bool)
    ensures
        r == (a@ == b@),
{
    let b = String::from_str(b);
    *a == b
}

impl Config {
    /// The configuration described by `source`. The first variable that is needed and not
    /// set is reported as `"{NAME} must be set"`. The instance id is a fresh random UUID,
    /// and so is the group id when the variable asks for a `random` one.
    pub fn new(source: &ConfigSource) -> (r: Result<Config, AppError>)
        ensures
            first_missing(*source) matches Some(name) ==> (r matches Err(AppError::Custom(m))
                && m@ == name + " must be set"@),
            first_missing(*source) is None ==> r is Ok,
            r matches Ok(c) ==> {
                &&& c.kafka_topic_main@ == source.kafka_topic_main.unwrap()@
                &&& c.kafka_topic_removal@ == source.kafka_topic_removal.unwrap()@
                &&& c.kafka_bootstrap_servers@ == source.kafka_bootstrap_servers.unwrap()@
                &&& c.database_url@ == source.database_url.unwrap()@
                &&& source.kafka_group_id.unwrap()@ != random_group_marker() ==> c.kafka_group_id@
                    == source.kafka_group_id.unwrap()@
                &&& source.kafka_group_id.unwrap()@ == random_group_marker() ==> is_uuid_text(
                    c.kafka_group_id@,
                ) && c.kafka_group_id@ != random_group_marker()
                &&& is_uuid_text(c.instance_id@)
                &&& c.service_discovery_self_url matches Some(u) ==> self_url_of(*source) == Some(
                    u@,
                )
                &&& c.service_discovery_self_url is None ==> self_url_of(*source) is None
            },
    {
        let kafka_topic_main = required(&source.kafka_topic_main, "KAFKA_TOPIC_MAIN")?;
        let kafka_topic_removal = required(&source.kafka_topic_removal, "KAFKA_TOPIC_REMOVAL")?;
        let group_id = required(&source.kafka_group_id, "KAFKA_GROUP_ID")?;
        let kafka_group_id = if text_equals(&group_id, "random") {
            let id = random_uuid();
            proof {
                reveal_strlit("random");
                assert(id@.len() != random_group_marker().len());
            }
            id
        } else {
            group_id
        };
        let kafka_bootstrap_servers = required(
            &source.kafka_bootstrap_servers,
            "KAFKA_BOOTSTRAP_SERVERS",
        )?;
        let database_url = required(&source.database_url, "DATABASE_URL")?;
        let instance_id = random_uuid();
        let service_discovery_self_url = match &source.service_discovery_self_url {
            None => None,
            Some(url) => {
                if text_equals(url, "docker.host") {
                    let hostname = required(&source.hostname, "HOSTNAME")?;
                    let mut address = String::from_str("http://");
                    address.append(hostname.as_str());
                    address.append(":8080");
                    Some(address)
                } else {
                    Some(url.clone())
                }
            },
        };
        Ok(
            Config {
                kafka_topic_main,
                kafka_topic_removal,
                kafka_group_id,
                kafka_bootstrap_servers,
                database_url,
                instance_id,
                service_discovery_self_url,
            },
        )
    }
}

} // verus!
