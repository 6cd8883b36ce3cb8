//! Runtime configuration, read from environment variables. `MQTT_HOST`,
//! `KAFKA_BOOTSTRAP` and `SEQ_URL` are required; the others have defaults.

use vstd::prelude::*;

verus! {

/// The pipeline's settings.
#[derive(Debug, Clone)]
pub struct Config {
    pub mqtt_host: String,
    pub mqtt_port: u16,
    pub mqtt_topic: String,
    pub client_id: String,
    pub kafka_bootstrap: String,
    pub kafka_topic: String,
    pub seq_url: String,
}

/// The raw values of the configuration variables, `None` where unset:
/// `MQTT_HOST`, `MQTT_PORT`, `MQTT_TOPIC`, `CONFIG_ID`,
/// `KAFKA_BOOTSTRAP`, `KAFKA_TOPIC` and `SEQ_URL`.
#[derive(Debug, Clone)]
pub struct ConfigVars {
    pub mqtt_host: Option<String>,
    pub mqtt_port: Option<String>,
    pub mqtt_topic: Option<String>,
    pub client_id: Option<String>,
    pub kafka_bootstrap: Option<String>,
    pub kafka_topic: Option<String>,
    pub seq_url: Option<String>,
}

/// Why the configuration cannot be used.
#[derive(Debug, Clone, Copy, PartialEq, Eq, Structural)]
pub enum ConfigError {
    /// `MQTT_HOST` is not set.
    MissingMqttHost,
    /// `MQTT_PORT` is not a port number.
    InvalidPort,
    /// `KAFKA_BOOTSTRAP` is not set.
    MissingKafkaBootstrap,
    /// `SEQ_URL` is not set.
    MissingSeqUrl,
}

/// The set value, or `default`.
pub open spec fn value_or(v: Option<String>, default: Seq<char>) -> Seq<char> {
    match v {
        Some(s) => s@,
        None => default,
    }
}

pub open spec fn is_ascii_digit(c: char) -> bool {
    '0' <= c && c <= '9'
}

/// The number written by the decimal digits `s`.
pub open spec fn decimal_value(s: Seq<char>) -> int
    decreases s.len(),
{
    if s.len() == 0 {
        0
    } else {
        decimal_value(s.drop_last()) * 10 + (s.last() as int - '0' as int)
    }
}

/// The digits of an unsigned number: the text after an optional leading `+`.
pub open spec fn unsigned_digits(s: Seq<char>) -> Seq<char> {
    if s.len() > 0 && s[0] == '+' {
        s.drop_first()
    } else {
        s
    }
}

/// What `str::parse::<u16>` accepts: an optional `+`, then at least one
/// ASCII digit and nothing else, for a value of at most 65535.
pub open spec fn port_of(s: Seq<char>) -> Option<u16> {
    let digits = unsigned_digits(s);
    if digits.len() > 0 && (forall|i: int| 0 <= i < digits.len() ==> is_ascii_digit(#[trigger] digits[i]))
        && decimal_value(digits) <= u16::MAX {
        Some(decimal_value(digits) as u16)
    } else {
        None
    }
}

proof fn lemma_decimal_value_grows(s: Seq<char>, k: int)
    requires
        0 <= k <= s.len(),
        forall|i: int| 0 <= i < s.len() ==> is_ascii_digit(#[trigger] s[i]),
    ensures
        0 <= decimal_value(s.take(k)) <= decimal_value(s),
    decreases s.len() - k,
{
    if k < s.len() {
        lemma_decimal_value_grows(s, k + 1);
        let t = s.take(k + 1);
        assert(t.drop_last() =~= s.take(k));
        assert(is_ascii_digit(t.last()));
    } else {
        assert(s.take(k) =~= s);
        lemma_decimal_value_nonneg(s);
    }
}

proof fn lemma_decimal_value_nonneg(s: Seq<char>)
    requires
        forall|i: int| 0 <= i < s.len() ==> is_ascii_digit(#[trigger] s[i]),
    ensures
        decimal_value(s) >= 0,
    decreases s.len(),
{
    if s.len() > 0 {
        assert(is_ascii_digit(s[s.len() - 1]));
        lemma_decimal_value_nonneg(s.drop_last());
    }
}

/// Parses a port number as `str::parse::<u16>` does.
pub fn parse_port(text: &str) -> (port: Option<u16>)
    ensures
        port == port_of(text@),
{
    let n = text.unicode_len();
    let mut i: usize = 0;
    if n > 0 && text.get_char(0) == '+' {
        i = 1;
    }
    let start = i;
    let ghost digits = unsigned_digits(text@);
    assert(digits =~= text@.skip(start as int));
    if start == n {
        return None;
    }
    let mut value: u32 = 0;
    while i < n
        invariant
            start <= i <= n,
            n == text@.len(),
            digits == text@.skip(start as int),
            digits == unsigned_digits(text@),
            forall|j: int| start <= j < i ==> is_ascii_digit(#[trigger] text@[j]),
            value == decimal_value(text@.subrange(start as int, i as int)),
            value <= u16::MAX,
        decreases n - i,
    {
        let c = text.get_char(i);
        if c < '0' || c > '9' {
            proof {
                assert(digits[i - start] == c);
            }
            return None;
        }
        let d: u32 = c as u32 - '0' as u32;
        proof {
            let t = text@.subrange(start as int, i + 1);
            assert(t.drop_last() =~= text@.subrange(start as int, i as int));
            assert(t.last() == c);
        }
        value = value * 10 + d;
        if value > 65535 {
            proof {
                if forall|j: int| 0 <= j < digits.len() ==> is_ascii_digit(#[trigger] digits[j]) {
                    lemma_decimal_value_grows(digits, i + 1 - start);
                    assert(digits.take(i + 1 - start) =~= text@.subrange(start as int, i + 1));
                }
            }
            return None;
        }
        i = i + 1;
    }
    proof {
        assert(text@.subrange(start as int, n as int) =~= digits);
    }
    Some(value as u16)
}

/// The first problem with the variables, checked in order: a missing MQTT
/// host, an unparsable port, a missing Kafka bootstrap server, a missing
/// Seq URL; `None` when there is none.
pub open spec fn config_error(vars: ConfigVars) -> Option<ConfigError> {
    if vars.mqtt_host is None {
        Some(ConfigError::MissingMqttHost)
    } else if port_of(value_or(vars.mqtt_port, "1883"@)) is None {
        Some(ConfigError::InvalidPort)
    } else if vars.kafka_bootstrap is None {
        Some(ConfigError::MissingKafkaBootstrap)
    } else if vars.seq_url is None {
        Some(ConfigError::MissingSeqUrl)
    } else {
        None
    }
}

impl Config {
    /// The configuration from the raw variable values. `MQTT_HOST`,
    /// `KAFKA_BOOTSTRAP` and `SEQ_URL` are required, and the first one
    /// missing (or an unparsable port) is refused with its error; unset
    /// optional variables take their defaults: port `1883`, topic filter
    /// `ha/#`, client id `foxwatch`, Kafka topic `foxwatch-telemetry`.
    pub fn from_vars(vars: ConfigVars) -> (r: Result<Config, ConfigError>)
        ensures
            config_error(vars) matches Some(e) ==> r == Err::<Config, ConfigError>(e),
            r is Ok <==> config_error(vars) is None,
            r matches Ok(c) ==> {
                &&& Some(c.mqtt_host@) == vars.mqtt_host.deep_view()
                &&& Some(c.mqtt_port) == port_of(value_or(vars.mqtt_port, "1883"@))
                &&& c.mqtt_topic@ == value_or(vars.mqtt_topic, "ha/#"@)
                &&& c.client_id@ == value_or(vars.client_id, "foxwatch"@)
                &&& Some(c.kafka_bootstrap@) == vars.kafka_bootstrap.deep_view()
                &&& c.kafka_topic@ == value_or(vars.kafka_topic, "foxwatch-telemetry"@)
                &&& Some(c.seq_url@) == vars.seq_url.deep_view()
            },
    {
        let mqtt_host = match vars.mqtt_host {
            Some(h) => h,
            None => return Err(ConfigError::MissingMqttHost),
        };
        let port_text = match &vars.mqtt_port {
            Some(p) => p.as_str(),
            None => "1883",
        };
        let mqtt_port = match parse_port(port_text) {
            Some(p) => p,
            None => return Err(ConfigError::InvalidPort),
        };
        let kafka_bootstrap = match vars.kafka_bootstrap {
            Some(b) => b,
            None => return Err(ConfigError::MissingKafkaBootstrap),
        };
        let seq_url = match vars.seq_url {
            Some(u) => u,
            None => return Err(ConfigError::MissingSeqUrl),
        };
        Ok(Config {
            mqtt_host,
            mqtt_port,
            mqtt_topic: or_default(vars.mqtt_topic, "ha/#"),
            client_id: or_default(vars.client_id, "foxwatch"),
            kafka_bootstrap,
            kafka_topic: or_default(vars.kafka_topic, "foxwatch-telemetry"),
            seq_url,
        })
    }
}

fn or_default(v: Option<String>, default: &str) -> (s: String)
    ensures
        s@ == value_or(v, default@),
{
    match v {
        Some(s) => s,
        None => default.to_owned(),
    }
}

} // verus!
