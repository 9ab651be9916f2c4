//! Chat webhooks: reading them from the configuration, and the requests that
//! post a fact to them or check that they exist.
use vstd::prelude::*;
use crate::text::{chars_of, split_chars, split_char, trim_range, trim_seq, ends_with_seq, free_of,
    join_with, lemma_split_join,
    to_lowercase, lowercase, replace_str, replace_all, occurs_at, occurs_at_exec, starts_with_seq,
    str_starts_with, str_eq};
use crate::config::ConfigData;

verus! {

/// The chat services a webhook can post to.
#[derive(PartialEq, Eq, Structural, Clone, Copy, Debug)]
pub enum Service {
    Discord,
    Slack,
    GoogleChat,
}

/// The service that a lower-case service name names.
pub open spec fn service_named(name: Seq<char>) -> Option<Service> {
    if name == "discord"@ {
        Some(Service::Discord)
    } else if name == "slack"@ {
        Some(Service::Slack)
    } else if name == "google_chat"@ {
        Some(Service::GoogleChat)
    } else {
        None
    }
}

impl Service {
    /// The service named by `service`, in any letter case: `discord`,
    /// `slack` or `google_chat`.
    pub fn from_string(service: &str) -> (r: Option<Service>)
        ensures
            r == service_named(lowercase(service@)),
    {
        let lower = to_lowercase(service);
        if str_eq(lower.as_str(), "discord") {
            Some(Service::Discord)
        } else if str_eq(lower.as_str(), "slack") {
            Some(Service::Slack)
        } else if str_eq(lower.as_str(), "google_chat") {
            Some(Service::GoogleChat)
        } else {
            None
        }
    }
}

/// A configured webhook.
pub struct Webhook {
    pub id: String,
    pub service: Service,
    pub channel: String,
    pub token: String,
    pub key: Option<String>,
}

/// What a webhook holds, as character sequences.
pub struct WebhookSpec {
    pub id: Seq<char>,
    pub service: Service,
    pub channel: Seq<char>,
    pub token: Seq<char>,
    pub key: Option<Seq<char>>,
}

impl View for Webhook {
    type V = WebhookSpec;

    open spec fn view(&self) -> WebhookSpec {
        WebhookSpec {
            id: self.id@,
            service: self.service,
            channel: self.channel@,
            token: self.token@,
            key: match self.key {
                Some(k) => Some(k@),
                None => None,
            },
        }
    }
}

/// The webhook that a configuration line `service, channel, token[, key]`
/// describes under the name `id`: the comma-separated parts are trimmed, the
/// service name is read in any case, parts after the fourth are ignored, and
/// a Google Chat hook must have a key. `None` where the line describes none.
pub open spec fn webhook_line(line: Seq<char>, id: Seq<char>) -> Option<WebhookSpec> {
    let p = split_char(line, ',');
    match service_named(lowercase(trim_seq(p[0]))) {
        None => None,
        Some(service) => if p.len() < 3 || (p.len() < 4 && service == Service::GoogleChat) {
            None
        } else {
            Some(
                WebhookSpec {
                    id,
                    service,
                    channel: trim_seq(p[1]),
                    token: trim_seq(p[2]),
                    key: if p.len() >= 4 {
                        Some(trim_seq(p[3]))
                    } else {
                        None
                    },
                },
            )
        },
    }
}

/// A line read as a webhook gives the webhook its name, and as channel and
/// token the second and third comma-separated parts, trimmed, whatever the
/// service; a key only where there is a fourth part.
pub proof fn law_line_parts(line: Seq<char>, id: Seq<char>)
    ensures
        webhook_line(line, id) matches Some(w) ==> {
            let p = split_char(line, ',');
            &&& w.id == id
            &&& w.channel == trim_seq(p[1])
            &&& w.token == trim_seq(p[2])
            &&& (w.key is Some <==> p.len() >= 4)
        },
{
}

/// A line written `service,channel,token` (parts without commas, the
/// service named in any case and with any spacing) describes that webhook,
/// the channel and token trimmed and no key, for Discord and Slack; written
/// `service,channel,token,key` it describes that webhook with the trimmed
/// key, for every service.
pub proof fn law_written_line(
    name: Seq<char>,
    channel: Seq<char>,
    token: Seq<char>,
    key: Seq<char>,
    id: Seq<char>,
    service: Service,
)
    requires
        service_named(lowercase(trim_seq(name))) == Some(service),
        free_of(name, ','),
        free_of(channel, ','),
        free_of(token, ','),
        free_of(key, ','),
    ensures
        service != Service::GoogleChat ==> webhook_line(join_with(seq![name, channel, token], ','), id)
            == Some(
            WebhookSpec {
                id,
                service,
                channel: trim_seq(channel),
                token: trim_seq(token),
                key: None,
            },
        ),
        service == Service::GoogleChat ==> webhook_line(join_with(seq![name, channel, token], ','), id)
            is None,
        webhook_line(join_with(seq![name, channel, token, key], ','), id) == Some(
            WebhookSpec {
                id,
                service,
                channel: trim_seq(channel),
                token: trim_seq(token),
                key: Some(trim_seq(key)),
            },
        ),
{
    let three = seq![name, channel, token];
    let four = seq![name, channel, token, key];
    assert forall|i: int| 0 <= i < three.len() implies free_of(#[trigger] three[i], ',') by {
        if i == 0 {
            assert(three[i] == name);
        } else if i == 1 {
            assert(three[i] == channel);
        } else {
            assert(three[i] == token);
        }
    }
    assert forall|i: int| 0 <= i < four.len() implies free_of(#[trigger] four[i], ',') by {
        if i == 0 {
            assert(four[i] == name);
        } else if i == 1 {
            assert(four[i] == channel);
        } else if i == 2 {
            assert(four[i] == token);
        } else {
            assert(four[i] == key);
        }
    }
    lemma_split_join(three, ',');
    lemma_split_join(four, ',');
}

/// Reads one webhook from its configuration line (see `webhook_line`).
pub fn parse_line(line: String, id: String) -> (r: Option<Webhook>)
    ensures
        r is Some <==> webhook_line(line@, id@) is Some,
        r matches Some(w) ==> w@ == webhook_line(line@, id@)->0,
{
    let v = chars_of(line.as_str());
    let parts = split_chars(&v, ',');
    let ghost p = split_char(line@, ',');
    proof {
        crate::text::lemma_char_pos(line@, ',');
    }
    assert(parts.len() >= 1);
    let first = trim_range(&parts[0], 0, parts[0].len());
    assert(parts[0]@.subrange(0, parts[0]@.len() as int) =~= p[0]);
    let service = match Service::from_string(first.as_str()) {
        Some(s) => s,
        None => {
            return None;
        },
    };
    if parts.len() < 3 {
        return None;
    }
    let channel = trim_range(&parts[1], 0, parts[1].len());
    let token = trim_range(&parts[2], 0, parts[2].len());
    assert(parts[1]@.subrange(0, parts[1]@.len() as int) =~= p[1]);
    assert(parts[2]@.subrange(0, parts[2]@.len() as int) =~= p[2]);
    let key = if parts.len() >= 4 {
        assert(parts[3]@.subrange(0, parts[3]@.len() as int) =~= p[3]);
        Some(trim_range(&parts[3], 0, parts[3].len()))
    } else {
        None
    };
    if key.is_none() && service == Service::GoogleChat {
        return None;
    }
    Some(Webhook { id, service, channel, token, key })
}

/// The prefix that marks a configuration key as a webhook.
pub open spec fn webhook_prefix() -> Seq<char> {
    "webhook_"@
}

/// Index of the first occurrence of `pat` in `s` at or after `from`, or
/// `s.len()` when there is none.
pub open spec fn find_from(s: Seq<char>, pat: Seq<char>, from: int) -> int
    decreases s.len() + 1 - from,
{
    if from < 0 || from > s.len() - pat.len() {
        s.len() as int
    } else if occurs_at(s, pat, from) {
        from
    } else {
        find_from(s, pat, from + 1)
    }
}

/// The name of a webhook key `webhook_<id>`: what lies between the prefix
/// and its next occurrence (the second piece of `key.split("webhook_")`).
pub open spec fn webhook_id(key: Seq<char>) -> Seq<char> {
    let n = webhook_prefix().len() as int;
    key.subrange(n, find_from(key, webhook_prefix(), n))
}

proof fn lemma_find_none(key: Seq<char>, pat: Seq<char>, n: int, i: int)
    requires
        0 <= n <= i,
        n <= key.len(),
        pat.len() > 0,
        !crate::text::contains_seq(key.skip(n), pat),
    ensures
        find_from(key, pat, i) == key.len(),
    decreases key.len() + 1 - i,
{
    if i <= key.len() - pat.len() {
        if occurs_at(key, pat, i) {
            assert(key.skip(n).subrange(i - n, i - n + pat.len()) =~= key.subrange(i, i + pat.len()));
            assert(occurs_at(key.skip(n), pat, i - n));
        }
        lemma_find_none(key, pat, n, i + 1);
    }
}

/// A key `webhook_<id>` names the webhook `id` when `id` does not itself
/// hold `webhook_`.
pub proof fn law_webhook_key_names(id: Seq<char>)
    requires
        !crate::text::contains_seq(id, webhook_prefix()),
    ensures
        starts_with_seq(webhook_prefix() + id, webhook_prefix()),
        webhook_id(webhook_prefix() + id) == id,
{
    reveal_strlit("webhook_");
    let key = webhook_prefix() + id;
    assert(key.take(8) =~= webhook_prefix());
    assert(key.skip(8) =~= id);
    lemma_find_none(key, webhook_prefix(), 8, 8);
    assert(key.subrange(8, key.len() as int) =~= id);
}

fn find_from_exec(v: &Vec<char>, pat: &Vec<char>, from: usize) -> (r: usize)
    requires
        pat@.len() > 0,
        from <= v@.len(),
    ensures
        r as int == find_from(v@, pat@, from as int),
        from <= r <= v@.len(),
    decreases v.len() - from,
{
    if pat.len() > v.len() - from {
        return v.len();
    }
    if occurs_at_exec(v, pat, from) {
        return from;
    }
    find_from_exec(v, pat, from + 1)
}

/// The webhook name of a key that begins with `webhook_`.
pub fn key_webhook_id(key: &str) -> (r: String)
    requires
        starts_with_seq(key@, webhook_prefix()),
    ensures
        r@ == webhook_id(key@),
{
    let v = chars_of(key);
    let prefix = chars_of("webhook_");
    proof {
        reveal_strlit("webhook_");
    }
    let end = find_from_exec(&v, &prefix, prefix.len());
    crate::text::string_of_range(&v, prefix.len(), end)
}

/// The webhooks that the configuration entries describe, in order: every
/// entry whose key begins with `webhook_` and whose value is a well-formed
/// webhook line.
pub open spec fn config_webhooks(entries: Seq<(Seq<char>, Seq<char>)>) -> Seq<WebhookSpec>
    decreases entries.len(),
{
    if entries.len() == 0 {
        seq![]
    } else {
        let (k, v) = entries[0];
        let rest = config_webhooks(entries.drop_first());
        if starts_with_seq(k, webhook_prefix()) {
            match webhook_line(v, webhook_id(k)) {
                Some(w) => seq![w] + rest,
                None => rest,
            }
        } else {
            rest
        }
    }
}

/// Reads every webhook of the configuration (see `config_webhooks`).
pub fn parse_config(config: &ConfigData) -> (r: Vec<Webhook>)
    ensures
        r@.map_values(|w: Webhook| w@) == config_webhooks(config@),
{
    let n = config.len();
    let mut out: Vec<Webhook> = Vec::new();
    assert(config@.skip(0) =~= config@);
    for i in 0..n
        invariant
            n == config@.len(),
            out@.map_values(|w: Webhook| w@) + config_webhooks(config@.skip(i as int))
                == config_webhooks(config@),
    {
        proof {
            assert(config@.skip(i as int).drop_first() =~= config@.skip(i + 1));
            assert(config@.skip(i as int)[0] == config@[i as int]);
        }
        let (k, v) = config.entry(i);
        let ghost before = out@.map_values(|w: Webhook| w@);
        if str_starts_with(k.as_str(), "webhook_") {
            proof {
                reveal_strlit("webhook_");
            }
            let id = key_webhook_id(k.as_str());
            match parse_line(v, id) {
                Some(w) => {
                    out.push(w);
                    proof {
                        let after = out@.map_values(|w: Webhook| w@);
                        assert(after =~= before.push(webhook_line(config@[i as int].1, webhook_id(config@[i as int].0))->0));
                        assert(after + config_webhooks(config@.skip(i + 1)) =~= before + (seq![
                            webhook_line(config@[i as int].1, webhook_id(config@[i as int].0))->0]
                            + config_webhooks(config@.skip(i + 1))));
                    }
                },
                None => {},
            }
        } else {
            proof {
                reveal_strlit("webhook_");
            }
        }
    }
    proof {
        assert(config@.skip(n as int) =~= Seq::<(Seq<char>, Seq<char>)>::empty());
        let ov = out@.map_values(|w: Webhook| w@);
        assert(ov + Seq::<WebhookSpec>::empty() =~= ov);
    }
    out
}


/// A configuration line that names Google Chat with a channel and a token
/// but no key: a hook that is left out, with a warning.
pub open spec fn keyless_google_chat(line: Seq<char>) -> bool {
    let p = split_char(line, ',');
    service_named(lowercase(trim_seq(p[0]))) == Some(Service::GoogleChat) && p.len() == 3
}

/// How many webhook entries of the configuration are Google Chat hooks
/// without a key.
pub open spec fn keyless_hook_count(entries: Seq<(Seq<char>, Seq<char>)>) -> nat
    decreases entries.len(),
{
    if entries.len() == 0 {
        0
    } else {
        let (k, v) = entries[0];
        let here: nat = if starts_with_seq(k, webhook_prefix()) && keyless_google_chat(v) {
            1
        } else {
            0
        };
        here + keyless_hook_count(entries.drop_first())
    }
}

/// A Google Chat line without a key describes no webhook.
pub proof fn law_keyless_left_out(line: Seq<char>, id: Seq<char>)
    requires
        keyless_google_chat(line),
    ensures
        webhook_line(line, id) is None,
{
}

fn is_keyless_google_chat(line: &str) -> (r: bool)
    ensures
        r == keyless_google_chat(line@),
{
    let v = chars_of(line);
    let parts = split_chars(&v, ',');
    proof {
        crate::text::lemma_char_pos(line@, ',');
    }
    let first = trim_range(&parts[0], 0, parts[0].len());
    assert(parts[0]@.subrange(0, parts[0]@.len() as int) =~= split_char(line@, ',')[0]);
    match Service::from_string(first.as_str()) {
        Some(Service::GoogleChat) => parts.len() == 3,
        _ => false,
    }
}

/// Counts the webhook entries that are Google Chat hooks without a key (see
/// `keyless_hook_count`); each is left out of `parse_config`.
pub fn keyless_hooks(config: &ConfigData) -> (n: usize)
    ensures
        n == keyless_hook_count(config@),
{
    let len = config.len();
    let mut n: usize = 0;
    assert(config@.skip(0) =~= config@);
    for i in 0..len
        invariant
            len == config@.len(),
            n <= i,
            n + keyless_hook_count(config@.skip(i as int)) == keyless_hook_count(config@),
    {
        proof {
            assert(config@.skip(i as int).drop_first() =~= config@.skip(i + 1));
            assert(config@.skip(i as int)[0] == config@[i as int]);
            reveal_strlit("webhook_");
        }
        let (k, v) = config.entry(i);
        if str_starts_with(k.as_str(), "webhook_") && is_keyless_google_chat(v.as_str()) {
            n += 1;
        }
    }
    assert(config@.skip(len as int) =~= Seq::<(Seq<char>, Seq<char>)>::empty());
    n
}

/// A lower-case hexadecimal digit.
pub open spec fn lower_hex_digit(d: int) -> char {
    if d < 10 {
        (48 + d) as char
    } else {
        (87 + d) as char
    }
}

/// How `serde_json` writes one character inside a string literal: `"` and
/// `\` behind a backslash; backspace, tab, line feed, form feed and
/// carriage return as `\b`, `\t`, `\n`, `\f`, `\r`; the other characters
/// below U+0020 as `\u00` and two lower-case hexadecimal digits; every other
/// character as itself.
pub open spec fn json_escape(c: char) -> Seq<char> {
    if c == '"' {
        seq!['\\', '"']
    } else if c == '\\' {
        seq!['\\', '\\']
    } else if c == '\u{8}' {
        seq!['\\', 'b']
    } else if c == '\t' {
        seq!['\\', 't']
    } else if c == '\n' {
        seq!['\\', 'n']
    } else if c == '\u{c}' {
        seq!['\\', 'f']
    } else if c == '\r' {
        seq!['\\', 'r']
    } else if (c as u32) < 32 {
        seq!['\\', 'u', '0', '0', lower_hex_digit(c as int / 16), lower_hex_digit(c as int % 16)]
    } else {
        seq![c]
    }
}

/// The escaped characters of a text, one after the other.
pub open spec fn json_escaped(s: Seq<char>) -> Seq<char>
    decreases s.len(),
{
    if s.len() == 0 {
        seq![]
    } else {
        json_escaped(s.drop_last()) + json_escape(s.last())
    }
}

/// The JSON string literal of a text, as `serde_json` writes it: the
/// escaped text between double quotes.
pub open spec fn json_string_literal(s: Seq<char>) -> Seq<char> {
    seq!['"'] + json_escaped(s) + seq!['"']
}

/// `serde_json::to_string` of a `str`: the JSON string literal of the text
/// (`format_escaped_str`, with its `ESCAPE` table). Writing a `str` into
/// memory does not fail, so the error arm is never taken.
#[verifier::external_body]
fn json_string(s: &str) -> (r: String)
    ensures
        r@ == json_string_literal(s@),
{
    match serde_json::to_string(s) {
        Ok(t) => t,
        Err(_) => String::new(),
    }
}

/// What a JSON text holds at `error.message`: `None` for a text that is no
/// JSON, else `Some` of the string found there, or `Some(None)` where there
/// is no string at that place.
pub uninterp spec fn json_error_message_of(body: Seq<char>) -> Option<Option<Seq<char>>>;

/// `serde_json::from_str::<serde_json::Value>` of `body`, then
/// `get("error")`, `get("message")` and `as_str()`. The result is the named
/// `json_error_message_of` of the text; the JSON grammar is not stated.
#[verifier::external_body]
fn json_error_message(body: &str) -> (r: Option<Option<String>>)
    ensures
        r is None <==> json_error_message_of(body@) is None,
        r matches Some(m) ==> (m matches Some(s) ==> json_error_message_of(body@) == Some(
            Some(s@),
        )),
        r matches Some(m) ==> (m is None ==> json_error_message_of(body@) == Some(
            None::<Seq<char>>,
        )),
{
    let json = match serde_json::from_str::<serde_json::Value>(body) {
        Ok(json) => json,
        Err(_) => return None,
    };
    let message = match json.get("error") {
        Some(error) => error.get("message"),
        None => None,
    };
    match message {
        Some(serde_json::Value::String(m)) => Some(Some(m.clone())),
        _ => Some(None),
    }
}

/// HTTP methods of webhook requests.
#[derive(PartialEq, Eq, Structural, Clone, Copy, Debug)]
pub enum HttpMethod {
    Get,
    Post,
}

/// A request to make to a chat service; `json_header` tells whether it
/// carries the header `Content-Type: application/json`.
pub struct HttpRequest {
    pub method: HttpMethod,
    pub url: String,
    pub body: Option<String>,
    pub json_header: bool,
}

/// How a chat service answered a request.
pub enum WebhookReply {
    /// The service accepted the request.
    Accepted,
    /// The service answered with an error status: the body of the answer,
    /// and for Google Chat the `error.message` string of that JSON body,
    /// if it has one.
    Refused { body: String, error_message: Option<String> },
    /// No answer came (the connection or the transfer failed).
    Failed,
}

/// The address a webhook posts to.
pub open spec fn send_url(w: WebhookSpec) -> Seq<char> {
    match w.service {
        Service::Discord => "https://discord.com/api/webhooks/"@ + w.channel + "/"@ + w.token,
        Service::Slack => "https://hooks.slack.com/services/"@ + w.channel + "/"@ + w.token,
        Service::GoogleChat => "https://chat.googleapis.com/v1/spaces/"@ + w.channel + "/messages?key="@
            + w.key->0 + "&token="@ + w.token,
    }
}

/// The address a webhook is checked at.
pub open spec fn verify_url(w: WebhookSpec) -> Seq<char> {
    match w.service {
        Service::Discord => "https://discordapp.com/api/webhooks/"@ + w.channel + "/"@ + w.token,
        _ => send_url(w),
    }
}

/// A hook is checked at the very address it posts to, for every service
/// but Discord (whose check goes to `discordapp.com`); for Google Chat both
/// addresses carry the key and then the token, and for the others they end
/// with the channel and then the token.
pub proof fn law_check_address(w: WebhookSpec)
    ensures
        w.service != Service::Discord ==> verify_url(w) == send_url(w),
        w.service == Service::GoogleChat && w.key is Some ==> ends_with_seq(
            verify_url(w),
            "?key="@ + w.key->0 + "&token="@ + w.token,
        ),
        w.service != Service::GoogleChat ==> ends_with_seq(
            verify_url(w),
            "/"@ + w.channel + "/"@ + w.token,
        ),
        w.service != Service::GoogleChat ==> ends_with_seq(send_url(w), "/"@ + w.channel + "/"@ + w.token),
{
    reveal_strlit("/messages?key=");
    reveal_strlit("/messages");
    reveal_strlit("?key=");
    assert("/messages?key="@ =~= "/messages"@ + "?key="@);
    let tail_g = "?key="@ + w.key->0 + "&token="@ + w.token;
    let tail_o = "/"@ + w.channel + "/"@ + w.token;
    match w.service {
        Service::GoogleChat => {
            let u = verify_url(w);
            let head = "https://chat.googleapis.com/v1/spaces/"@ + w.channel + "/messages"@;
            assert(u =~= head + tail_g);
            assert(u.skip(u.len() - tail_g.len()) =~= tail_g);
        },
        Service::Discord => {
            let u = verify_url(w);
            assert(u =~= "https://discordapp.com/api/webhooks"@ + tail_o) by {
                reveal_strlit("https://discordapp.com/api/webhooks/");
                reveal_strlit("https://discordapp.com/api/webhooks");
                reveal_strlit("/");
            }
            assert(u.skip(u.len() - tail_o.len()) =~= tail_o);
            let v = send_url(w);
            assert(v =~= "https://discord.com/api/webhooks"@ + tail_o) by {
                reveal_strlit("https://discord.com/api/webhooks/");
                reveal_strlit("https://discord.com/api/webhooks");
                reveal_strlit("/");
            }
            assert(v.skip(v.len() - tail_o.len()) =~= tail_o);
        },
        Service::Slack => {
            let u = verify_url(w);
            assert(u =~= "https://hooks.slack.com/services"@ + tail_o) by {
                reveal_strlit("https://hooks.slack.com/services/");
                reveal_strlit("https://hooks.slack.com/services");
                reveal_strlit("/");
            }
            assert(u.skip(u.len() - tail_o.len()) =~= tail_o);
        },
    }
}

/// The JSON payload a webhook posts for `message` under `title`: the
/// service's template with `{{TITLE}}` and then `{{MESSAGE}}` replaced, or
/// for Google Chat a `text` field holding `*title*`, a line break and the
/// message in a code block.
pub open spec fn send_body(service: Service, message: Seq<char>, title: Seq<char>) -> Seq<char> {
    match service {
        Service::Discord => replace_all(
            replace_all(
                "{\"embeds\":[{\"title\":\"{{TITLE}}\",\"description\":\"{{MESSAGE}}\",\"color\":6053119}]}"@,
                "{{TITLE}}"@,
                title,
            ),
            "{{MESSAGE}}"@,
            message,
        ),
        Service::Slack => replace_all(
            replace_all(
                "{\"attachments\":[{\"title\":\"{{TITLE}}\",\"text\":\"{{MESSAGE}}\",\"color\":\"#5C5CFF\"}]}"@,
                "{{TITLE}}"@,
                title,
            ),
            "{{MESSAGE}}"@,
            message,
        ),
        Service::GoogleChat => "{\"text\":"@ + json_string_literal("*"@ + title + "*\n```"@ + message + "```"@) + "}"@,
    }
}

fn join3(a: &str, b: &str, c: &str) -> (r: String)
    ensures
        r@ == a@ + b@ + c@,
{
    let mut r = a.to_owned();
    r.append(b);
    r.append(c);
    r
}

impl Webhook {
    /// The request that posts `message` under `title` to the hook (see
    /// `send_url` and `send_body`) as JSON. A Google Chat hook must have a
    /// key.
    pub fn send_request(&self, message: &str, title: &str) -> (r: HttpRequest)
        requires
            self.service == Service::GoogleChat ==> self.key is Some,
        ensures
            r.method == HttpMethod::Post,
            r.json_header,
            r.url@ == send_url(self@),
            r.body matches Some(b) && b@ == send_body(self.service, message@, title@),
    {
        let url = self.url_for(false);
        let body = match self.service {
            Service::Discord => {
                proof {
                    reveal_strlit("{{TITLE}}");
                    reveal_strlit("{{MESSAGE}}");
                }
                let t = replace_str(
                    "{\"embeds\":[{\"title\":\"{{TITLE}}\",\"description\":\"{{MESSAGE}}\",\"color\":6053119}]}",
                    "{{TITLE}}",
                    title,
                );
                replace_str(t.as_str(), "{{MESSAGE}}", message)
            },
            Service::Slack => {
                proof {
                    reveal_strlit("{{TITLE}}");
                    reveal_strlit("{{MESSAGE}}");
                }
                let t = replace_str(
                    "{\"attachments\":[{\"title\":\"{{TITLE}}\",\"text\":\"{{MESSAGE}}\",\"color\":\"#5C5CFF\"}]}",
                    "{{TITLE}}",
                    title,
                );
                replace_str(t.as_str(), "{{MESSAGE}}", message)
            },
            Service::GoogleChat => {
                let mut text = join3("*", title, "*\n```");
                text.append(message);
                text.append("```");
                let lit = json_string(text.as_str());
                join3("{\"text\":", lit.as_str(), "}")
            },
        };
        HttpRequest { method: HttpMethod::Post, url, body: Some(body), json_header: true }
    }

    fn url_for(&self, checking: bool) -> (r: String)
        requires
            self.service == Service::GoogleChat ==> self.key is Some,
        ensures
            r@ == (if checking { verify_url(self@) } else { send_url(self@) }),
    {
        match self.service {
            Service::Discord => {
                let mut u = if checking {
                    "https://discordapp.com/api/webhooks/".to_owned()
                } else {
                    "https://discord.com/api/webhooks/".to_owned()
                };
                u.append(self.channel.as_str());
                u.append("/");
                u.append(self.token.as_str());
                u
            },
            Service::Slack => {
                let mut u = "https://hooks.slack.com/services/".to_owned();
                u.append(self.channel.as_str());
                u.append("/");
                u.append(self.token.as_str());
                u
            },
            Service::GoogleChat => {
                let mut u = "https://chat.googleapis.com/v1/spaces/".to_owned();
                u.append(self.channel.as_str());
                u.append("/messages?key=");
                match &self.key {
                    Some(k) => u.append(k.as_str()),
                    None => {},
                }
                u.append("&token=");
                u.append(self.token.as_str());
                u
            },
        }
    }

    /// The request that checks that the hook exists: a `GET` of its address
    /// for Discord and Slack, a `POST` of the empty JSON object `{}` for
    /// Google Chat, none with a JSON content-type header. A Google Chat hook
    /// must have a key.
    pub fn verify_request(&self) -> (r: HttpRequest)
        requires
            self.service == Service::GoogleChat ==> self.key is Some,
        ensures
            r.url@ == verify_url(self@),
            !r.json_header,
            self.service == Service::GoogleChat ==> r.method == HttpMethod::Post && (r.body matches Some(
                b,
            ) && b@ == "{}"@),
            self.service != Service::GoogleChat ==> r.method == HttpMethod::Get && r.body is None,
    {
        let url = self.url_for(true);
        match self.service {
            Service::GoogleChat => HttpRequest {
                method: HttpMethod::Post,
                url,
                body: Some("{}".to_owned()),
                json_header: false,
            },
            _ => HttpRequest { method: HttpMethod::Get, url, body: None, json_header: false },
        }
    }

    /// How the service's error answer with `body` is read: for Google Chat
    /// the `error.message` string of the JSON body is taken out (`None` in
    /// it where there is no such string), and a body that is no JSON gives
    /// `None`; the other services keep the body alone.
    pub fn refusal(&self, body: String) -> (r: Option<WebhookReply>)
        ensures
            self.service != Service::GoogleChat ==> (r matches Some(
                WebhookReply::Refused { body: b, error_message: e },
            ) && b@ == body@ && e is None),
            self.service == Service::GoogleChat ==> (match json_error_message_of(body@) {
                None => r is None,
                Some(m) => r matches Some(WebhookReply::Refused { body: b, error_message: e })
                    && b@ == body@ && (match e {
                    Some(s) => m == Some(s@),
                    None => m is None,
                }),
            }),
    {
        match self.service {
            Service::GoogleChat => match json_error_message(body.as_str()) {
                None => None,
                Some(m) => Some(WebhookReply::Refused { body, error_message: m }),
            },
            _ => Some(WebhookReply::Refused { body, error_message: None }),
        }
    }

    /// Whether the answer to the check request shows that the hook exists:
    /// Discord accepts the request; Slack refuses it with the body
    /// `invalid_payload`; Google Chat refuses it with the error message
    /// `Message cannot be empty.`.
    pub fn verified_by(&self, reply: &WebhookReply) -> (r: bool)
        ensures
            r == (match self.service {
                Service::Discord => reply is Accepted,
                Service::Slack => reply matches WebhookReply::Refused { body, .. } && body@
                    == "invalid_payload"@,
                Service::GoogleChat => reply matches WebhookReply::Refused { error_message, .. }
                    && error_message matches Some(m) && m@ == "Message cannot be empty."@,
            }),
    {
        match self.service {
            Service::Discord => match reply {
                WebhookReply::Accepted => true,
                _ => false,
            },
            Service::Slack => match reply {
                WebhookReply::Refused { body, .. } => str_eq(body.as_str(), "invalid_payload"),
                _ => false,
            },
            Service::GoogleChat => match reply {
                WebhookReply::Refused { error_message: Some(m), .. } => str_eq(
                    m.as_str(),
                    "Message cannot be empty.",
                ),
                _ => false,
            },
        }
    }
}

} // verus!
