use vstd::prelude::*;

verus! {

/// Where the HTTP server listens.
pub struct ServerConfig {
    pub host: String,
    pub port: u16,
}

/// A channel setting as it was read from the configuration: text, a
/// non-negative integer, or anything else (which no setting accepts).
pub enum SettingValue {
    Text(String),
    Unsigned(u64),
    Other,
}

/// A notification channel: its name, its type (`email`, `discord`, ...)
/// and its remaining settings, one entry per key.
pub struct ChannelConfig {
    pub name: String,
    pub channel_type: String,
    pub extra: Vec<(String, SettingValue)>,
}

/// An exposed URL path, its optional token, and the channels it notifies.
pub struct EndpointConfig {
    pub path: String,
    pub token: Option<String>,
    pub channels: Vec<String>,
}

/// The whole configuration.
pub struct Config {
    pub server: ServerConfig,
    pub channels: Vec<ChannelConfig>,
    pub endpoints: Vec<EndpointConfig>,
}

pub open spec fn string_views(v: Seq<String>) -> Seq<Seq<char>> {
    v.map_values(|s: String| s@)
}

pub open spec fn channel_names(channels: Seq<ChannelConfig>) -> Seq<Seq<char>> {
    channels.map_values(|c: ChannelConfig| c.name@)
}

/// The first of `wanted` that is not among `known`.
pub open spec fn first_missing(known: Seq<Seq<char>>, wanted: Seq<Seq<char>>) -> Option<Seq<char>>
    decreases wanted.len(),
{
    if wanted.len() == 0 {
        None
    } else if !known.contains(wanted[0]) {
        Some(wanted[0])
    } else {
        first_missing(known, wanted.drop_first())
    }
}

/// The first endpoint, in order, that names a channel not configured,
/// with the first such channel name.
pub open spec fn first_unknown_channel(known: Seq<Seq<char>>, endpoints: Seq<EndpointConfig>) -> Option<
    (Seq<char>, Seq<char>),
>
    decreases endpoints.len(),
{
    if endpoints.len() == 0 {
        None
    } else {
        match first_missing(known, string_views(endpoints[0].channels@)) {
            Some(ch) => Some((endpoints[0].path@, ch)),
            None => first_unknown_channel(known, endpoints.drop_first()),
        }
    }
}

pub open spec fn unknown_channel_message(path: Seq<char>, channel: Seq<char>) -> Seq<char> {
    "endpoint '"@ + path + "': unknown channel '"@ + channel + "'"@
}

/// Whether `name` occurs in `names`.
pub fn contains_name(names: &Vec<String>, name: &String) -> (res: bool)
    ensures
        res == string_views(names@).contains(name@),
{
    let mut i: usize = 0;
    while i < names.len()
        invariant
            0 <= i <= names@.len(),
            forall|j: int| 0 <= j < i ==> names@[j]@ != name@,
        decreases names@.len() - i,
    {
        if names[i] == *name {
            assert(string_views(names@)[i as int] == name@);
            return true;
        }
        i = i + 1;
    }
    assert(!string_views(names@).contains(name@)) by {
        if string_views(names@).contains(name@) {
            let k = choose|k: int| 0 <= k < string_views(names@).len() && string_views(names@)[k] == name@;
            assert(names@[k]@ == name@);
        }
    }
    false
}

impl Config {
    /// Every channel that an endpoint names must be configured; the first
    /// endpoint that breaks this is reported with its first unknown channel.
    pub fn validate(&self) -> (res: Result<(), String>)
        ensures
            match first_unknown_channel(channel_names(self.channels@), self.endpoints@) {
                None => res is Ok,
                Some((path, ch)) => res matches Err(msg) && msg@ == unknown_channel_message(path, ch),
            },
    {
        let mut names: Vec<String> = Vec::new();
        let mut k: usize = 0;
        while k < self.channels.len()
            invariant
                0 <= k <= self.channels@.len(),
                string_views(names@) == channel_names(self.channels@).take(k as int),
            decreases self.channels@.len() - k,
        {
            let ghost before = names@;
            let name = self.channels[k].name.clone();
            names.push(name);
            assert(names@ == before.push(name));
            assert(string_views(before.push(name)) =~= string_views(before).push(name@));
            assert(channel_names(self.channels@).take(k + 1) =~= channel_names(self.channels@).take(
                k as int,
            ).push(self.channels@[k as int].name@));
            assert(string_views(names@) =~= channel_names(self.channels@).take(k + 1));
            k = k + 1;
        }
        assert(string_views(names@) =~= channel_names(self.channels@));
        let ghost known = channel_names(self.channels@);
        let mut e: usize = 0;
        assert(self.endpoints@.skip(0) =~= self.endpoints@);
        while e < self.endpoints.len()
            invariant
                0 <= e <= self.endpoints@.len(),
                string_views(names@) == known,
                known == channel_names(self.channels@),
                first_unknown_channel(known, self.endpoints@) == first_unknown_channel(
                    known,
                    self.endpoints@.skip(e as int),
                ),
            decreases self.endpoints@.len() - e,
        {
            let ep = &self.endpoints[e];
            let ghost wanted = string_views(ep.channels@);
            let ghost rest = self.endpoints@.skip(e as int);
            assert(rest[0] == *ep);
            assert(rest.drop_first() =~= self.endpoints@.skip(e + 1));
            let mut c: usize = 0;
            assert(wanted.skip(0) =~= wanted);
            while c < ep.channels.len()
                invariant
                    0 <= c <= ep.channels@.len(),
                    wanted == string_views(ep.channels@),
                    string_views(names@) == known,
                    e < self.endpoints@.len(),
                    rest == self.endpoints@.skip(e as int),
                    rest[0] == *ep,
                    known == channel_names(self.channels@),
                    first_unknown_channel(known, self.endpoints@) == first_unknown_channel(known, rest),
                    first_missing(known, wanted) == first_missing(known, wanted.skip(c as int)),
                decreases ep.channels@.len() - c,
            {
                let ghost tail = wanted.skip(c as int);
                assert(tail[0] == ep.channels@[c as int]@);
                assert(tail.drop_first() =~= wanted.skip(c + 1));
                if !contains_name(&names, &ep.channels[c]) {
                    assert(first_missing(known, tail) == Some(ep.channels@[c as int]@));
                    assert(first_unknown_channel(known, rest) == Some((ep.path@, ep.channels@[c as int]@)));
                    let mut msg = String::from_str("endpoint '");
                    msg.append(ep.path.as_str());
                    msg.append("': unknown channel '");
                    msg.append(ep.channels[c].as_str());
                    msg.append("'");
                    return Err(msg);
                }
                c = c + 1;
            }
            assert(wanted.skip(c as int) =~= Seq::<Seq<char>>::empty());
            e = e + 1;
        }
        assert(self.endpoints@.skip(e as int) =~= Seq::<EndpointConfig>::empty());
        Ok(())
    }
}

} // verus!
