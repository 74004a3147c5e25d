use vstd::prelude::*;
use crate::config::{ChannelConfig, SettingValue};
use crate::json::{json_quote, json_string_literal};
use crate::notification::{level_color, level_emoji, level_hex_color, level_label, level_style, Notification};

verus! {

/// The value of setting `key` (the last entry of that name).
pub open spec fn setting(extra: Seq<(String, SettingValue)>, key: Seq<char>) -> Option<SettingValue>
    decreases extra.len(),
{
    if extra.len() == 0 {
        None
    } else if extra.last().0@ == key {
        Some(extra.last().1)
    } else {
        setting(extra.drop_last(), key)
    }
}

/// A setting read as text.
pub open spec fn setting_text(extra: Seq<(String, SettingValue)>, key: Seq<char>) -> Option<Seq<char>> {
    match setting(extra, key) {
        Some(SettingValue::Text(s)) => Some(s@),
        _ => None,
    }
}

/// A setting read as a port: a non-negative integer, cut to its low 16 bits.
pub open spec fn setting_port(extra: Seq<(String, SettingValue)>, key: Seq<char>) -> Option<u16> {
    match setting(extra, key) {
        Some(SettingValue::Unsigned(n)) => Some((n % 0x10000) as u16),
        _ => None,
    }
}

fn find_setting<'a>(extra: &'a Vec<(String, SettingValue)>, key: &str) -> (res: Option<&'a SettingValue>)
    ensures
        match res {
            Some(v) => setting(extra@, key@) == Some(*v),
            None => setting(extra@, key@) is None,
        },
{
    let wanted = String::from_str(key);
    let mut i: usize = extra.len();
    assert(extra@.take(i as int) =~= extra@);
    while i > 0
        invariant
            0 <= i <= extra@.len(),
            wanted@ == key@,
            setting(extra@, key@) == setting(extra@.take(i as int), key@),
        decreases i,
    {
        let ghost prefix = extra@.take(i as int);
        assert(prefix.drop_last() =~= extra@.take(i - 1));
        if extra[i - 1].0 == wanted {
            assert(prefix.last() == extra@[i - 1]);
            return Some(&extra[i - 1].1);
        }
        i = i - 1;
    }
    None
}

/// A text setting of a channel.
pub fn get_string(extra: &Vec<(String, SettingValue)>, key: &str) -> (res: Option<String>)
    ensures
        match res {
            Some(s) => setting_text(extra@, key@) == Some(s@),
            None => setting_text(extra@, key@) is None,
        },
{
    match find_setting(extra, key) {
        Some(SettingValue::Text(s)) => Some(s.clone()),
        _ => None,
    }
}

/// A port setting of a channel: a non-negative integer, cut to 16 bits.
pub fn get_u16(extra: &Vec<(String, SettingValue)>, key: &str) -> (res: Option<u16>)
    ensures
        res == setting_port(extra@, key@),
{
    match find_setting(extra, key) {
        Some(SettingValue::Unsigned(n)) => Some((*n % 0x10000) as u16),
        _ => None,
    }
}

/// What an email channel is made from.
pub struct EmailSettings {
    pub name: String,
    pub smtp_host: String,
    pub smtp_port: u16,
    pub username: String,
    pub password: String,
    pub from: String,
    pub to: String,
    pub format: String,
}

/// Why a configured channel is not built.
pub enum SkipReason {
    /// A required setting is absent (or not text); it is named.
    MissingSetting(String),
    /// The type is known but has no implementation yet.
    NotImplemented,
    /// The type is not known.
    UnknownType,
}

/// What to build for one configured channel.
pub enum ChannelPlan {
    Email(EmailSettings),
    Discord { name: String, webhook_url: String },
    Skip(SkipReason),
}

pub open spec fn text_or(v: Option<Seq<char>>, default: Seq<char>) -> Seq<char> {
    match v {
        Some(s) => s,
        None => default,
    }
}

pub open spec fn is_missing(plan: ChannelPlan, key: Seq<char>) -> bool {
    plan matches ChannelPlan::Skip(SkipReason::MissingSetting(k)) && k@ == key
}

/// The plan for an `email` channel: `smtp_host`, `from` and `to` are
/// required, checked in that order; the port defaults to 587, user name
/// and password to empty text, the format to `text`.
pub open spec fn email_plan_ok(cfg: ChannelConfig, plan: ChannelPlan) -> bool {
    let extra = cfg.extra@;
    if setting_text(extra, "smtp_host"@) is None {
        is_missing(plan, "smtp_host"@)
    } else if setting_text(extra, "from"@) is None {
        is_missing(plan, "from"@)
    } else if setting_text(extra, "to"@) is None {
        is_missing(plan, "to"@)
    } else {
        plan matches ChannelPlan::Email(s) && {
            &&& s.name@ == cfg.name@
            &&& s.smtp_host@ == setting_text(extra, "smtp_host"@)->0
            &&& s.smtp_port == match setting_port(extra, "smtp_port"@) {
                Some(p) => p,
                None => 587u16,
            }
            &&& s.username@ == text_or(setting_text(extra, "username"@), Seq::empty())
            &&& s.password@ == text_or(setting_text(extra, "password"@), Seq::empty())
            &&& s.from@ == setting_text(extra, "from"@)->0
            &&& s.to@ == setting_text(extra, "to"@)->0
            &&& s.format@ == text_or(setting_text(extra, "format"@), "text"@)
        }
    }
}

/// The plan for a `discord` channel: `webhook_url` is required.
pub open spec fn discord_plan_ok(cfg: ChannelConfig, plan: ChannelPlan) -> bool {
    match setting_text(cfg.extra@, "webhook_url"@) {
        None => is_missing(plan, "webhook_url"@),
        Some(url) => plan matches ChannelPlan::Discord { name, webhook_url } && name@ == cfg.name@
            && webhook_url@ == url,
    }
}

fn text_or_default(v: Option<String>, default: &str) -> (res: String)
    ensures
        res@ == text_or(
            match v {
                Some(s) => Some(s@),
                None => None,
            },
            default@,
        ),
{
    match v {
        Some(s) => s,
        None => String::from_str(default),
    }
}

/// Decides what to build for a configured channel, by its type.
pub fn plan_channel(cfg: &ChannelConfig) -> (plan: ChannelPlan)
    ensures
        cfg.channel_type@ == "email"@ ==> email_plan_ok(*cfg, plan),
        cfg.channel_type@ == "discord"@ ==> discord_plan_ok(*cfg, plan),
        cfg.channel_type@ == "telegram"@ ==> plan matches ChannelPlan::Skip(SkipReason::NotImplemented),
        cfg.channel_type@ != "email"@ && cfg.channel_type@ != "discord"@ && cfg.channel_type@
            != "telegram"@ ==> plan matches ChannelPlan::Skip(SkipReason::UnknownType),
{
    let kind = &cfg.channel_type;
    proof {
        reveal_strlit("email");
        reveal_strlit("discord");
        reveal_strlit("telegram");
        assert("email"@.len() == 5 && "discord"@.len() == 7 && "telegram"@.len() == 8);
    }
    if *kind == String::from_str("email") {
        let smtp_host = match get_string(&cfg.extra, "smtp_host") {
            Some(h) => h,
            None => {
                return ChannelPlan::Skip(SkipReason::MissingSetting(String::from_str("smtp_host")));
            },
        };
        let smtp_port = match get_u16(&cfg.extra, "smtp_port") {
            Some(p) => p,
            None => 587,
        };
        let username = text_or_default(get_string(&cfg.extra, "username"), "");
        let password = text_or_default(get_string(&cfg.extra, "password"), "");
        let from = match get_string(&cfg.extra, "from") {
            Some(f) => f,
            None => {
                return ChannelPlan::Skip(SkipReason::MissingSetting(String::from_str("from")));
            },
        };
        let to = match get_string(&cfg.extra, "to") {
            Some(t) => t,
            None => {
                return ChannelPlan::Skip(SkipReason::MissingSetting(String::from_str("to")));
            },
        };
        let format = text_or_default(get_string(&cfg.extra, "format"), "text");
        proof {
            reveal_strlit("");
            assert(""@ =~= Seq::<char>::empty());
        }
        ChannelPlan::Email(
            EmailSettings {
                name: cfg.name.clone(),
                smtp_host,
                smtp_port,
                username,
                password,
                from,
                to,
                format,
            },
        )
    } else if *kind == String::from_str("discord") {
        match get_string(&cfg.extra, "webhook_url") {
            Some(u) => ChannelPlan::Discord { name: cfg.name.clone(), webhook_url: u },
            None => ChannelPlan::Skip(SkipReason::MissingSetting(String::from_str("webhook_url"))),
        }
    } else if *kind == String::from_str("telegram") {
        ChannelPlan::Skip(SkipReason::NotImplemented)
    } else {
        ChannelPlan::Skip(SkipReason::UnknownType)
    }
}

/// The parts of an email for a notification.
pub struct EmailDraft {
    pub from: String,
    pub to: String,
    pub subject: String,
    pub body: String,
    /// Whether the body is HTML (else plain text).
    pub html: bool,
}

pub open spec fn opt_text(v: Option<String>, default: Seq<char>) -> Seq<char> {
    match v {
        Some(s) => s@,
        None => default,
    }
}

/// `<emoji> [<LABEL>] <title>`.
pub open spec fn email_subject(level: Seq<char>, title: Seq<char>) -> Seq<char> {
    level_emoji(level) + " ["@ + level_label(level) + "] "@ + title
}

/// The plain-text body: the level's emoji and label, a blank line, then
/// the message.
pub open spec fn email_plain_body(level: Seq<char>, message: Seq<char>) -> Seq<char> {
    level_emoji(level) + " "@ + level_label(level) + "\n\n"@ + message
}

/// The HTML body: a coloured badge with the level, a blank line, then the
/// message.
pub open spec fn email_body(level: Seq<char>, message: Seq<char>) -> Seq<char> {
    "<span style=\"display:inline-block;padding:2px 8px;border-radius:3px;background:"@ + level_hex_color(
        level,
    ) + ";color:#fff;font-weight:bold;font-size:12px\">"@ + level_emoji(level) + " "@ + level_label(level)
        + "</span>\n\n"@ + message
}

/// The email for a notification: its own `to` and `from` replace the
/// channel's; the subject carries the level's style; the body is the HTML
/// badge body when the channel's format is `html`, and plain text for any
/// other format.
pub fn email_draft(channel_from: &str, channel_to: &str, format: &str, notification: &Notification) -> (draft:
    EmailDraft)
    ensures
        draft.to@ == opt_text(notification.to, channel_to@),
        draft.from@ == opt_text(notification.from, channel_from@),
        draft.subject@ == email_subject(notification.level@, notification.title@),
        draft.html == (format@ == "html"@),
        draft.html ==> draft.body@ == email_body(notification.level@, notification.message@),
        !draft.html ==> draft.body@ == email_plain_body(notification.level@, notification.message@),
{
    let to = match &notification.to {
        Some(t) => t.clone(),
        None => String::from_str(channel_to),
    };
    let from = match &notification.from {
        Some(f) => f.clone(),
        None => String::from_str(channel_from),
    };
    let style = level_style(notification.level.as_str());
    let mut subject = String::from_str(style.emoji);
    subject.append(" [");
    subject.append(style.label);
    subject.append("] ");
    subject.append(notification.title.as_str());
    let html = String::from_str(format) == String::from_str("html");
    let mut body;
    if html {
        body = String::from_str(
            "<span style=\"display:inline-block;padding:2px 8px;border-radius:3px;background:",
        );
        body.append(style.hex_color);
        body.append(";color:#fff;font-weight:bold;font-size:12px\">");
        body.append(style.emoji);
        body.append(" ");
        body.append(style.label);
        body.append("</span>\n\n");
    } else {
        body = String::from_str(style.emoji);
        body.append(" ");
        body.append(style.label);
        body.append("\n\n");
    }
    body.append(notification.message.as_str());
    EmailDraft { from, to, subject, body, html }
}

pub open spec fn digit_char(d: nat) -> char {
    if d == 0 { '0' } else if d == 1 { '1' } else if d == 2 { '2' } else if d == 3 { '3' }
    else if d == 4 { '4' } else if d == 5 { '5' } else if d == 6 { '6' } else if d == 7 { '7' }
    else if d == 8 { '8' } else { '9' }
}

/// The decimal notation of a number.
pub open spec fn decimal(n: nat) -> Seq<char>
    decreases n,
{
    if n < 10 {
        seq![digit_char(n)]
    } else {
        decimal(n / 10) + seq![digit_char(n % 10)]
    }
}

fn digit(d: u64) -> (c: char)
    requires
        d < 10,
    ensures
        c == digit_char(d as nat),
{
    if d == 0 { '0' } else if d == 1 { '1' } else if d == 2 { '2' } else if d == 3 { '3' }
    else if d == 4 { '4' } else if d == 5 { '5' } else if d == 6 { '6' } else if d == 7 { '7' }
    else if d == 8 { '8' } else { '9' }
}

fn push_decimal(out: &mut Vec<char>, n: u64)
    ensures
        final(out)@ == old(out)@ + decimal(n as nat),
    decreases n,
{
    if n < 10 {
        out.push(digit(n));
    } else {
        push_decimal(out, n / 10);
        out.push(digit(n % 10));
        assert(final(out)@ =~= old(out)@ + decimal(n as nat));
    }
}

/// The decimal notation of an integer.
pub fn decimal_text(n: u64) -> (res: String)
    ensures
        res@ == decimal(n as nat),
{
    let mut digits: Vec<char> = Vec::new();
    push_decimal(&mut digits, n);
    assert(digits@ =~= decimal(n as nat));
    crate::text::string_from_chars(digits.as_slice())
}

/// The webhook body: one embed with colour, description and title, keys
/// in the order serde_json writes them, the two texts given as JSON
/// string literals.
pub open spec fn discord_payload_text(title_json: Seq<char>, description_json: Seq<char>, color: u64) -> Seq<
    char,
> {
    "{\"embeds\":[{\"color\":"@ + decimal(color as nat) + ",\"description\":"@ + description_json
        + ",\"title\":"@ + title_json + "}]}"@
}

/// Frames the webhook body from the quoted title and description.
pub fn frame_discord_payload(title_json: &str, description_json: &str, color: u64) -> (res: String)
    ensures
        res@ == discord_payload_text(title_json@, description_json@, color),
{
    let mut out = String::from_str("{\"embeds\":[{\"color\":");
    let color_text = decimal_text(color);
    out.append(color_text.as_str());
    out.append(",\"description\":");
    out.append(description_json);
    out.append(",\"title\":");
    out.append(title_json);
    out.append("}]}");
    out
}

/// The Discord webhook body for a notification: the title, the message as
/// description, and the level's colour.
pub fn discord_payload(notification: &Notification) -> (res: String)
    ensures
        res@ == discord_payload_text(
            json_string_literal(notification.title@),
            json_string_literal(notification.message@),
            level_color(notification.level@),
        ),
{
    let style = level_style(notification.level.as_str());
    let title = json_quote(notification.title.as_str());
    let description = json_quote(notification.message.as_str());
    frame_discord_payload(title.as_str(), description.as_str(), style.color)
}

/// How the webhook's HTTP status is judged: a 2xx status is success,
/// any other is reported with the status as text.
pub fn discord_status_result(code: u16, status_text: &str) -> (res: Result<(), String>)
    ensures
        200 <= code <= 299 ==> res is Ok,
        !(200 <= code <= 299) ==> (res matches Err(e) && e@ == "discord api error: "@ + status_text@),
{
    if 200 <= code && code <= 299 {
        Ok(())
    } else {
        let mut e = String::from_str("discord api error: ");
        e.append(status_text);
        Err(e)
    }
}

/// A mailbox: an optional display name and the address's user and domain.
pub struct MailboxParts {
    pub name: Option<String>,
    pub user: String,
    pub domain: String,
}

pub open spec fn parts_view(p: MailboxParts) -> (Option<Seq<char>>, Seq<char>, Seq<char>) {
    (
        match p.name {
            Some(n) => Some(n@),
            None => None,
        },
        p.user@,
        p.domain@,
    )
}

/// What parsing a text as a mailbox (`Name <user@domain>` or a bare
/// address) gives: its name, user and domain, or the error's text.
pub uninterp spec fn mailbox_parse(text: Seq<char>) -> Result<(Option<Seq<char>>, Seq<char>, Seq<char>), Seq<char>>;

/// `text.parse::<lettre::message::Mailbox>()`, taken apart into the
/// mailbox's name, user and domain; its error written with `Display`.
/// The outcome is named, as a function of the text alone.
#[verifier::external_body]
fn parse_mailbox(text: &str) -> (res: Result<MailboxParts, String>)
    ensures
        match res {
            Ok(p) => mailbox_parse(text@) == Ok::<_, Seq<char>>(parts_view(p)),
            Err(e) => mailbox_parse(text@) == Err::<(Option<Seq<char>>, Seq<char>, Seq<char>), _>(e@),
        },
{
    match text.parse::<lettre::message::Mailbox>() {
        Ok(m) => Ok(MailboxParts {
            name: m.name,
            user: m.email.user().to_string(),
            domain: m.email.domain().to_string(),
        }),
        Err(e) => Err(format!("{e}")),
    }
}

/// The sender and recipient mailboxes of a draft, in that order: the
/// first parsed from its `from`, the second from its `to`. The sender is
/// parsed first, so its error is the one reported when both fail.
pub fn email_mailboxes(draft: &EmailDraft) -> (res: Result<(MailboxParts, MailboxParts), String>)
    ensures
        match (mailbox_parse(draft.from@), mailbox_parse(draft.to@)) {
            (Err(e), _) => res matches Err(m) && m@ == e,
            (Ok(_), Err(e)) => res matches Err(m) && m@ == e,
            (Ok(f), Ok(t)) => res matches Ok((from, to)) && parts_view(from) == f && parts_view(to) == t,
        },
{
    let from = parse_mailbox(draft.from.as_str())?;
    let to = parse_mailbox(draft.to.as_str())?;
    Ok((from, to))
}

} // verus!
