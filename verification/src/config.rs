//! The bot's configuration: key-value entries read from an ini-like text,
//! and the settings drawn from them.
use vstd::prelude::*;
use crate::text::{chars_of, string_of, chars_eq, to_lowercase, lowercase, str_eq, trim_seq, split_char};
use crate::number::{parse_unsigned, parse_decimal, decimal_text, law_decimal_text_parses};
use crate::send_time::{SendTime, send_time_parts};
use crate::email::{Auth, AuthSpec};
use crate::webhook::{Webhook, parse_config, config_webhooks};

verus! {

/// Configuration entries in the order they were read.
pub struct ConfigData {
    entries: Vec<(String, String)>,
}

impl View for ConfigData {
    type V = Seq<(Seq<char>, Seq<char>)>;

    closed spec fn view(&self) -> Seq<(Seq<char>, Seq<char>)> {
        self.entries@.map_values(|p: (String, String)| (p.0@, p.1@))
    }
}

/// How `simple_config_parser` reads one line of a configuration text:
/// `Some(None)` for a line that is blank, or whose trimmed text begins with
/// a comment character (`#` or `;`) or with `[`; otherwise the line is cut
/// before its first `#` and then before its first `;`, and must split at `=`
/// into exactly two pieces: the key is the first piece without its spaces,
/// in lower case, the value the second piece trimmed. `None` where the line
/// does not split so.
pub open spec fn config_line(line: Seq<char>) -> Option<Option<(Seq<char>, Seq<char>)>> {
    let t = trim_seq(line);
    if t.len() == 0 || t[0] == '#' || t[0] == ';' || t[0] == '[' {
        Some(None)
    } else {
        let kept = split_char(split_char(t, '#')[0], ';')[0];
        let parts = split_char(kept, '=');
        if parts.len() != 2 {
            None
        } else {
            Some(Some((lowercase(parts[0].filter(|c: char| c != ' ')), trim_seq(parts[1]))))
        }
    }
}

/// The entries of the lines, in order; `None` where a line is refused.
pub open spec fn config_lines(lines: Seq<Seq<char>>) -> Option<Seq<(Seq<char>, Seq<char>)>>
    decreases lines.len(),
{
    if lines.len() == 0 {
        Some(seq![])
    } else {
        match config_lines(lines.drop_last()) {
            None => None,
            Some(init) => match config_line(lines.last()) {
                None => None,
                Some(None) => Some(init),
                Some(Some(e)) => Some(init.push(e)),
            },
        }
    }
}

/// The entries that `simple_config_parser` reads from a configuration text
/// (`Config::text`): its lines, split at line feeds, read by `config_line`.
/// (`str::lines` also drops a carriage return before a line feed, and a
/// last empty line; trimming and the skipping of blank lines do the same
/// here.)
pub open spec fn config_text_entries(text: Seq<char>) -> Option<Seq<(Seq<char>, Seq<char>)>> {
    config_lines(split_char(text, '\n'))
}

/// `simple_config_parser::Config::new().text(text)`, its entries taken out as
/// pairs: the entries of `config_text_entries`, or the error where a line
/// is refused.
#[verifier::external_body]
fn scp_parse_text(text: &str) -> (r: Result<Vec<(String, String)>, simple_config_parser::ConfigError>)
    ensures
        r is Ok <==> config_text_entries(text@) is Some,
        r matches Ok(v) ==> v@.map_values(|p: (String, String)| (p.0@, p.1@))
            == config_text_entries(text@)->0,
{
    match simple_config_parser::Config::new().text(text) {
        Ok(c) => Ok(c.data.into_iter().map(|[k, v]| (k, v)).collect()),
        Err(e) => Err(e),
    }
}

#[verifier::external_type_specification]
#[verifier::external_body]
pub struct ExConfigError(simple_config_parser::ConfigError);

/// The value of the last entry whose key is `key`.
pub open spec fn last_value(entries: Seq<(Seq<char>, Seq<char>)>, key: Seq<char>) -> Option<Seq<char>>
    decreases entries.len(),
{
    if entries.len() == 0 {
        None
    } else if entries.last().0 == key {
        Some(entries.last().1)
    } else {
        last_value(entries.drop_last(), key)
    }
}

/// The configured value of `key`: keys are compared in lower case, and a
/// later entry wins over an earlier one (`Config::get_str`).
pub open spec fn config_get(entries: Seq<(Seq<char>, Seq<char>)>, key: Seq<char>) -> Option<Seq<char>> {
    last_value(entries, lowercase(key))
}

impl ConfigData {
    /// Reads the entries of a configuration text (see `config_text_entries`).
    pub fn parse(text: &str) -> (r: Option<ConfigData>)
        ensures
            r is Some <==> config_text_entries(text@) is Some,
            r matches Some(c) ==> c@ == config_text_entries(text@)->0,
    {
        match scp_parse_text(text) {
            Ok(entries) => Some(ConfigData { entries }),
            Err(_) => None,
        }
    }

    /// The configured value of `key` (see `config_get`).
    pub fn get_str(&self, key: &str) -> (r: Option<String>)
        ensures
            r is Some <==> config_get(self@, key@) is Some,
            r matches Some(v) ==> v@ == config_get(self@, key@)->0,
    {
        let k = to_lowercase(key);
        let kv = chars_of(k.as_str());
        let mut i = self.entries.len();
        assert(self@.take(i as int) =~= self@);
        while i > 0
            invariant
                i <= self@.len(),
                kv@ == lowercase(key@),
                config_get(self@, key@) == last_value(self@.take(i as int), lowercase(key@)),
            decreases i,
        {
            proof {
                let t = self@.take(i as int);
                assert(t.drop_last() =~= self@.take(i - 1));
                assert(t.last() == self@[i - 1]);
            }
            let ek = chars_of(self.entries[i - 1].0.as_str());
            if chars_eq(&ek, &kv) {
                return Some(string_of(&chars_of(self.entries[i - 1].1.as_str())));
            }
            i -= 1;
        }
        None
    }

    /// Configuration holding exactly the given entries.
    pub fn from_entries(entries: Vec<(String, String)>) -> (c: ConfigData)
        ensures
            c@ == entries@.map_values(|p: (String, String)| (p.0@, p.1@)),
    {
        ConfigData { entries }
    }

    /// The number of entries.
    pub fn len(&self) -> (n: usize)
        ensures
            n == self@.len(),
    {
        self.entries.len()
    }

    /// A copy of the entry at index `i`.
    pub fn entry(&self, i: usize) -> (r: (String, String))
        requires
            i < self@.len(),
        ensures
            r.0@ == self@[i as int].0,
            r.1@ == self@[i as int].1,
    {
        let k = string_of(&chars_of(self.entries[i].0.as_str()));
        let v = string_of(&chars_of(self.entries[i].1.as_str()));
        (k, v)
    }
}


/// A value configured for a key is what reading the key gives, whatever
/// came before it, in whatever letter case the key is asked for.
pub proof fn law_later_entry_wins(entries: Seq<(Seq<char>, Seq<char>)>, key: Seq<char>, value: Seq<char>)
    ensures
        config_get(entries.push((lowercase(key), value)), key) == Some(value),
{
    assert(entries.push((lowercase(key), value)).last() == (lowercase(key), value));
}

/// The keys that the settings are read from, in the order they are read.
pub open spec fn required_keys() -> Seq<Seq<char>> {
    seq![
        "factPath"@, "dataPath"@, "emailListPath"@, "sendTime"@, "subject"@, "server"@,
        "senderName"@, "username"@, "password"@, "factApi"@, "webServer"@, "webUrl"@,
        "webHost"@, "webPort"@,
    ]
}

/// Why a configuration gives no settings.
#[derive(PartialEq, Eq, Debug)]
pub enum SettingError {
    /// The key was not defined.
    MissingKey(String),
    /// The send time is not of the form `hour:minute`.
    InvalidSendTime,
}

/// The first problem met when the settings are read in the order of
/// `required_keys` from index `i` on, the send time being read as soon as
/// its key is found: a missing key (by its name), or `None` for an invalid
/// send time. `Some(None)` stands for the invalid send time, `Some(Some(k))`
/// for the missing key `k`, and `None` for no problem.
pub open spec fn problem_from(entries: Seq<(Seq<char>, Seq<char>)>, i: int) -> Option<Option<Seq<char>>>
    decreases 14 - i,
{
    if i < 0 || i >= 14 {
        None
    } else if config_get(entries, required_keys()[i]) is None {
        Some(Some(required_keys()[i]))
    } else if i == 3 && send_time_parts(config_get(entries, required_keys()[3])->0) is None {
        Some(None)
    } else {
        problem_from(entries, i + 1)
    }
}

/// Whether a configured flag is on: its value is `true` in any letter case.
pub open spec fn flag_on(value: Seq<char>) -> bool {
    lowercase(value) == "true"@
}

/// The web server port: the configured decimal `u16`, or 8080 where the
/// value is no such number.
pub open spec fn port_of(value: Seq<char>) -> u16 {
    match parse_unsigned(value, 10, 65535) {
        Some(p) => p as u16,
        None => 8080,
    }
}

/// The port is the decimal reading of the `webPort` value: the decimal
/// numeral of any number up to 65535 gives that number, and a value that is
/// no decimal `u16` (such as a number above 65535) gives 8080.
pub proof fn law_port_is_decimal(n: nat, value: Seq<char>)
    requires
        n <= 65535,
    ensures
        port_of(decimal_text(n)) == n,
        parse_unsigned(value, 10, 65535) is None ==> port_of(value) == 8080,
        port_of(decimal_text(n + 65536)) == 8080,
{
    law_decimal_text_parses(n, 65535);
    law_decimal_text_parses(n + 65536, n + 65536);
}

/// The bot's settings.
pub struct Config {
    // Web
    pub data_path: String,
    pub fact_api: bool,
    pub web_url: String,
    pub web_ip: String,
    pub web_port: u16,
    pub web_auth: Auth,
    pub web_server: bool,
    // Email
    pub server: String,
    pub sender_name: String,
    pub user_path: String,
    pub username: String,
    pub password: String,
    pub subject: String,
    // Misc
    pub fact_path: String,
    pub send_time: SendTime,
    pub webhooks: Vec<Webhook>,
}

fn required(cfg: &ConfigData, key: &str) -> (r: Result<String, SettingError>)
    ensures
        r matches Ok(v) ==> config_get(cfg@, key@) == Some(v@),
        r matches Err(e) ==> e matches SettingError::MissingKey(k) && k@ == key@,
        r is Err <==> config_get(cfg@, key@) is None,
{
    match cfg.get_str(key) {
        Some(v) => Ok(v),
        None => Err(SettingError::MissingKey(key.to_owned())),
    }
}


/// What a configuration gives for a setting that is a string.
pub open spec fn setting(cfg: Seq<(Seq<char>, Seq<char>)>, key: Seq<char>) -> Seq<char> {
    config_get(cfg, key)->0
}

/// `c` holds the settings that the configuration gives.
pub open spec fn reads_settings(c: Config, cfg: Seq<(Seq<char>, Seq<char>)>) -> bool {
    &&& c.fact_path@ == setting(cfg, "factPath"@)
    &&& c.data_path@ == setting(cfg, "dataPath"@)
    &&& c.webhooks@.map_values(|w: Webhook| w@) == config_webhooks(cfg)
    &&& c.user_path@ == setting(cfg, "emailListPath"@)
    &&& c.send_time@ == send_time_parts(setting(cfg, "sendTime"@))->0
    &&& c.subject@ == setting(cfg, "subject"@)
    &&& c.server@ == setting(cfg, "server"@)
    &&& c.sender_name@ == setting(cfg, "senderName"@)
    &&& c.username@ == setting(cfg, "username"@)
    &&& c.password@ == setting(cfg, "password"@)
    &&& c.fact_api == flag_on(setting(cfg, "factApi"@))
    &&& c.web_server == flag_on(setting(cfg, "webServer"@))
    &&& c.web_url@ == setting(cfg, "webUrl"@)
    &&& c.web_ip@ == setting(cfg, "webHost"@)
    &&& c.web_port == port_of(setting(cfg, "webPort"@))
    &&& c.web_auth@ == (AuthSpec {
        username: setting(cfg, "username"@),
        password: setting(cfg, "password"@),
        name: setting(cfg, "senderName"@),
        server: setting(cfg, "server"@),
    })
}

impl Config {
    /// The settings of a configuration that gives every key of
    /// `required_keys` and a valid send time.
    pub fn from_config(cfg: &ConfigData) -> (c: Config)
        requires
            problem_from(cfg@, 0) is None,
        ensures
            reads_settings(c, cfg@),
    {
        match Config::from_data(cfg) {
            Ok(c) => c,
            Err(_) => vstd::pervasive::unreached(),
        }
    }

    /// The settings that the configuration gives, read in the order of
    /// `required_keys`; the first missing key, or an invalid send time met
    /// before any later key is missing, is the error.
    pub fn from_data(cfg: &ConfigData) -> (r: Result<Config, SettingError>)
        ensures
            r is Ok <==> problem_from(cfg@, 0) is None,
            r matches Err(SettingError::MissingKey(k)) ==> problem_from(cfg@, 0) == Some(Some(k@)),
            r matches Err(SettingError::InvalidSendTime) ==> problem_from(cfg@, 0) == Some(
                None::<Seq<char>>,
            ),
            r matches Ok(c) ==> reads_settings(c, cfg@),
    {
        let ghost e = cfg@;
        let ghost ks = required_keys();
        assert(ks[0] == "factPath"@ && ks[1] == "dataPath"@ && ks[2] == "emailListPath"@);
        assert(ks[3] == "sendTime"@ && ks[4] == "subject"@ && ks[5] == "server"@);
        assert(ks[6] == "senderName"@ && ks[7] == "username"@ && ks[8] == "password"@);
        assert(ks[9] == "factApi"@ && ks[10] == "webServer"@ && ks[11] == "webUrl"@);
        assert(ks[12] == "webHost"@ && ks[13] == "webPort"@);
        assert(problem_from(e, 14) is None);
        let fact_path = match required(cfg, "factPath") {
            Ok(v) => v,
            Err(x) => {
                assert(problem_from(e, 0) == Some(Some(ks[0])));
                return Err(x);
            },
        };
        assert(problem_from(e, 0) == problem_from(e, 1));
        let data_path = match required(cfg, "dataPath") {
            Ok(v) => v,
            Err(x) => {
                assert(problem_from(e, 1) == Some(Some(ks[1])));
                return Err(x);
            },
        };
        assert(problem_from(e, 1) == problem_from(e, 2));
        let webhooks = parse_config(cfg);
        let user_path = match required(cfg, "emailListPath") {
            Ok(v) => v,
            Err(x) => {
                assert(problem_from(e, 2) == Some(Some(ks[2])));
                return Err(x);
            },
        };
        assert(problem_from(e, 2) == problem_from(e, 3));
        let send_time_text = match required(cfg, "sendTime") {
            Ok(v) => v,
            Err(x) => {
                assert(problem_from(e, 3) == Some(Some(ks[3])));
                return Err(x);
            },
        };
        let send_time = match SendTime::try_from_str(send_time_text.as_str()) {
            Some(t) => t,
            None => {
                assert(problem_from(e, 3) == Some(None::<Seq<char>>));
                return Err(SettingError::InvalidSendTime);
            },
        };
        assert(problem_from(e, 3) == problem_from(e, 4));
        let subject = match required(cfg, "subject") {
            Ok(v) => v,
            Err(x) => {
                assert(problem_from(e, 4) == Some(Some(ks[4])));
                return Err(x);
            },
        };
        assert(problem_from(e, 4) == problem_from(e, 5));
        let server = match required(cfg, "server") {
            Ok(v) => v,
            Err(x) => {
                assert(problem_from(e, 5) == Some(Some(ks[5])));
                return Err(x);
            },
        };
        assert(problem_from(e, 5) == problem_from(e, 6));
        let sender_name = match required(cfg, "senderName") {
            Ok(v) => v,
            Err(x) => {
                assert(problem_from(e, 6) == Some(Some(ks[6])));
                return Err(x);
            },
        };
        assert(problem_from(e, 6) == problem_from(e, 7));
        let username = match required(cfg, "username") {
            Ok(v) => v,
            Err(x) => {
                assert(problem_from(e, 7) == Some(Some(ks[7])));
                return Err(x);
            },
        };
        assert(problem_from(e, 7) == problem_from(e, 8));
        let password = match required(cfg, "password") {
            Ok(v) => v,
            Err(x) => {
                assert(problem_from(e, 8) == Some(Some(ks[8])));
                return Err(x);
            },
        };
        assert(problem_from(e, 8) == problem_from(e, 9));
        let fact_api_text = match required(cfg, "factApi") {
            Ok(v) => v,
            Err(x) => {
                assert(problem_from(e, 9) == Some(Some(ks[9])));
                return Err(x);
            },
        };
        assert(problem_from(e, 9) == problem_from(e, 10));
        let web_server_text = match required(cfg, "webServer") {
            Ok(v) => v,
            Err(x) => {
                assert(problem_from(e, 10) == Some(Some(ks[10])));
                return Err(x);
            },
        };
        assert(problem_from(e, 10) == problem_from(e, 11));
        let web_url = match required(cfg, "webUrl") {
            Ok(v) => v,
            Err(x) => {
                assert(problem_from(e, 11) == Some(Some(ks[11])));
                return Err(x);
            },
        };
        assert(problem_from(e, 11) == problem_from(e, 12));
        let web_ip = match required(cfg, "webHost") {
            Ok(v) => v,
            Err(x) => {
                assert(problem_from(e, 12) == Some(Some(ks[12])));
                return Err(x);
            },
        };
        assert(problem_from(e, 12) == problem_from(e, 13));
        let web_port_text = match required(cfg, "webPort") {
            Ok(v) => v,
            Err(x) => {
                assert(problem_from(e, 13) == Some(Some(ks[13])));
                return Err(x);
            },
        };
        assert(problem_from(e, 13) == problem_from(e, 14));
        let fact_api = str_eq(to_lowercase(fact_api_text.as_str()).as_str(), "true");
        let web_server = str_eq(to_lowercase(web_server_text.as_str()).as_str(), "true");
        let web_port: u16 = match parse_decimal(web_port_text.as_str(), 65535) {
            Some(p) => p as u16,
            None => 8080,
        };
        let web_auth = Auth::new(
            string_of(&chars_of(username.as_str())),
            string_of(&chars_of(password.as_str())),
            string_of(&chars_of(sender_name.as_str())),
            string_of(&chars_of(server.as_str())),
        );
        Ok(Config {
            data_path,
            fact_api,
            web_url,
            web_ip,
            web_port,
            web_auth,
            web_server,
            server,
            sender_name,
            user_path,
            username,
            password,
            subject,
            fact_path,
            send_time,
            webhooks,
        })
    }
}

} // verus!
