use serde_json::Value;
use vstd::prelude::*;
use crate::text::{after_last, chars_after_last, chars_of, find_from, find_sep, lemma_find_from, string_from, string_from_chars};

verus! {

/// Whether `text` holds a match of the URL pattern of the `is_url` crate.
pub uninterp spec fn url_pattern_matches(text: Seq<char>) -> bool;

/// Calls `is_url::is_url`, whose answer depends on its argument alone (it
/// searches the text for a match of a fixed regular expression); the
/// contract names that answer and says nothing more of it.
#[verifier::external_body]
fn url_matches(url: &str) -> (r: bool)
    ensures
        r == url_pattern_matches(url@),
{
    is_url::is_url(url)
}

/// Whether `url` is taken for a URL that can be downloaded.
pub fn accepts_url(url: &str) -> (r: bool)
    ensures
        r == url_pattern_matches(url@),
{
    url_matches(url)
}

/// The separator between the URL and the file name in a packet sent by the
/// browser in monitor mode.
pub open spec fn packet_separator() -> Seq<char> {
    seq!['{', '|', '}']
}

/// What a packet from the browser asks for.
pub enum PacketOutcome {
    /// The packet holds no separator.
    Unrecognized,
    /// The packet holds the separator more than once.
    WrongFieldCount,
    /// The packet is well formed, but its first field is not a URL.
    NotAUrl { url: String, filename: String },
    /// The packet asks to download `url` and save it as `filename`.
    Download { url: String, filename: String },
}

/// What a packet with text `s` asks for, when its first field is (`url_ok`)
/// or is not a URL: `None` when the packet holds no separator, `Some(None)`
/// when it holds it more than once, else the two fields.
pub open spec fn packet_fields(s: Seq<char>) -> Option<Option<(Seq<char>, Seq<char>)>> {
    let sep = packet_separator();
    match find_from(s, sep, 0) {
        None => None,
        Some(i) => if find_from(s, sep, i + sep.len()) is None {
            Some(Some((s.take(i), s.skip(i + sep.len()))))
        } else {
            Some(None)
        },
    }
}

/// Whether `r` is the answer to a packet with text `s` whose first field is
/// (`url_ok`) or is not a URL.
pub open spec fn packet_outcome_is(r: PacketOutcome, s: Seq<char>, url_ok: bool) -> bool {
    match packet_fields(s) {
        None => r is Unrecognized,
        Some(None) => r is WrongFieldCount,
        Some(Some((u, f))) => if url_ok {
            r matches PacketOutcome::Download { url, filename } && url@ == u && filename@ == f
        } else {
            r matches PacketOutcome::NotAUrl { url, filename } && url@ == u && filename@ == f
        },
    }
}

/// The answer to a well-formed packet once it is known whether its URL is one.
pub fn outcome_for(url: String, filename: String, url_ok: bool) -> (r: PacketOutcome)
    ensures
        url_ok ==> (r matches PacketOutcome::Download { url: u, filename: f } && u@ == url@
            && f@ == filename@),
        !url_ok ==> (r matches PacketOutcome::NotAUrl { url: u, filename: f } && u@ == url@
            && f@ == filename@),
{
    if url_ok {
        PacketOutcome::Download { url, filename }
    } else {
        PacketOutcome::NotAUrl { url, filename }
    }
}

/// Reads a packet sent by the browser: `<url>{|}<file name>`.
pub fn classify_packet(packet: &str) -> (r: PacketOutcome)
    ensures
        match packet_fields(packet@) {
            Some(Some((u, f))) => packet_outcome_is(r, packet@, url_pattern_matches(u)),
            _ => packet_outcome_is(r, packet@, false),
        },
{
    let chars = chars_of(packet);
    let sep: Vec<char> = vec!['{', '|', '}'];
    assert(sep@ =~= packet_separator());
    proof {
        lemma_find_from(chars@, sep@, 0);
    }
    match find_sep(&chars, &sep, 0) {
        None => PacketOutcome::Unrecognized,
        Some(i) => {
            assert(find_from(chars@, sep@, 0) == Some(i as int));
            assert(i + 3 <= chars.len());
            match find_sep(&chars, &sep, i + 3) {
                Some(_) => PacketOutcome::WrongFieldCount,
                None => {
                    let head = vstd::slice::slice_subrange(chars.as_slice(), 0, i);
                    assert(head@ =~= chars@.take(i as int));
                    let url = string_from_chars(head);
                    let filename = string_from(&chars, i + 3);
                    let ok = url_matches(url.as_str());
                    outcome_for(url, filename, ok)
                },
            }
        },
    }
}

/// `ceil(a / b)`.
pub open spec fn ceil_div(a: nat, b: nat) -> nat
    recommends
        b > 0,
{
    if a % b == 0 {
        a / b
    } else {
        a / b + 1
    }
}

fn div_ceil(a: usize, b: usize) -> (r: usize)
    requires
        b > 0,
    ensures
        r == ceil_div(a as nat, b as nat),
{
    if a % b == 0 {
        a / b
    } else {
        assert(a / b < a || a / b == 0) by (nonlinear_arith)
            requires
                b > 0,
                a % b != 0,
        ;
        a / b + 1
    }
}

/// The settings of monitor mode, as plain values.
pub struct MonitorView {
    pub download_folder: Seq<char>,
    pub max_threads: usize,
    pub min_threads: usize,
    pub threads: usize,
}

/// The settings of monitor mode: where downloads go and how many threads
/// they may use.
pub struct MonitorState {
    pub download_folder: String,
    pub max_threads: usize,
    pub min_threads: usize,
    pub threads: usize,
}

impl View for MonitorState {
    type V = MonitorView;

    open spec fn view(&self) -> MonitorView {
        MonitorView {
            download_folder: self.download_folder@,
            max_threads: self.max_threads,
            min_threads: self.min_threads,
            threads: self.threads,
        }
    }
}

/// The settings fields of a `SET_CONFIG` packet. For each field, `None`
/// means that the key is absent and `Some(None)` that its value has the
/// wrong type.
pub struct ConfigFields {
    pub download_threads_max: Option<Option<u64>>,
    pub download_threads_min: Option<Option<u64>>,
    pub download: Option<Option<String>>,
}

/// The fields of a JSON packet that monitor mode reads, each present only
/// when it has the right type (`config` when it is an object).
pub struct Packet {
    pub event: Option<String>,
    pub config: Option<ConfigFields>,
    pub url: Option<String>,
    pub id: Option<u64>,
    pub mime: Option<String>,
}

/// The contents of an optional string.
pub open spec fn opt_view(s: Option<String>) -> Option<Seq<char>> {
    match s {
        Some(t) => Some(t@),
        None => None,
    }
}

/// The settings fields of a packet, as plain values.
pub open spec fn config_view(c: ConfigFields) -> (
    Option<Option<u64>>,
    Option<Option<u64>>,
    Option<Option<Seq<char>>>,
) {
    (
        c.download_threads_max,
        c.download_threads_min,
        match c.download {
            Some(d) => Some(opt_view(d)),
            None => None,
        },
    )
}

/// The fields of a packet, as plain values: event, settings, URL, id, MIME type.
pub open spec fn packet_view(p: Packet) -> (
    Option<Seq<char>>,
    Option<(Option<Option<u64>>, Option<Option<u64>>, Option<Option<Seq<char>>>)>,
    Option<Seq<char>>,
    Option<u64>,
    Option<Seq<char>>,
) {
    (
        opt_view(p.event),
        match p.config {
            Some(c) => Some(config_view(c)),
            None => None,
        },
        opt_view(p.url),
        p.id,
        opt_view(p.mime),
    )
}

/// What one JSON value is, as far as monitor mode reads it.
pub struct JsonItem {
    /// Whether it is an object.
    pub is_object: bool,
    /// Its text, when it is a string.
    pub text: Option<String>,
    /// Its number, when it is an unsigned integer that fits in a `u64`.
    pub number: Option<u64>,
}

/// A `JsonItem` as plain values.
pub open spec fn item_view(i: JsonItem) -> (bool, Option<Seq<char>>, Option<u64>) {
    (i.is_object, opt_view(i.text), i.number)
}

/// The value that the JSON pointer `pointer` designates in the JSON text
/// `text`, as `(is an object, string, unsigned integer)`; `None` when `text`
/// is not JSON or when nothing is there.
pub uninterp spec fn json_at_pointer(text: Seq<char>, pointer: Seq<char>) -> Option<
    (bool, Option<Seq<char>>, Option<u64>),
>;

/// Parses `text` with `serde_json::from_str`, takes the value at `pointer`
/// with `Value::pointer`, and reports it with `Value::is_object`,
/// `Value::as_str` and `Value::as_u64`. The answer depends on the two
/// arguments alone; the contract names it and says nothing more.
#[verifier::external_body]
fn json_item(text: &str, pointer: &str) -> (r: Option<JsonItem>)
    ensures
        match r {
            Some(i) => json_at_pointer(text@, pointer@) == Some(item_view(i)),
            None => json_at_pointer(text@, pointer@) is None,
        },
{
    let parsed: Value = serde_json::from_str(text).ok()?;
    let v = parsed.pointer(pointer)?;
    Some(JsonItem { is_object: v.is_object(), text: v.as_str().map(String::from), number: v.as_u64() })
}

/// The string at `pointer` in `text`, if there is one.
pub open spec fn text_at(text: Seq<char>, pointer: Seq<char>) -> Option<Seq<char>> {
    match json_at_pointer(text, pointer) {
        Some((_, s, _)) => s,
        None => None,
    }
}

/// The unsigned integer at `pointer` in `text`, if there is one.
pub open spec fn number_at(text: Seq<char>, pointer: Seq<char>) -> Option<u64> {
    match json_at_pointer(text, pointer) {
        Some((_, _, n)) => n,
        None => None,
    }
}

/// Whether there is an object at `pointer` in `text`.
pub open spec fn object_at(text: Seq<char>, pointer: Seq<char>) -> bool {
    match json_at_pointer(text, pointer) {
        Some((o, _, _)) => o,
        None => false,
    }
}

/// For a settings key at `pointer`: `None` when it is absent, else its
/// unsigned integer, if it is one.
pub open spec fn number_key_at(text: Seq<char>, pointer: Seq<char>) -> Option<Option<u64>> {
    match json_at_pointer(text, pointer) {
        Some((_, _, n)) => Some(n),
        None => None,
    }
}

/// For a settings key at `pointer`: `None` when it is absent, else its
/// string, if it is one.
pub open spec fn text_key_at(text: Seq<char>, pointer: Seq<char>) -> Option<Option<Seq<char>>> {
    match json_at_pointer(text, pointer) {
        Some((_, s, _)) => Some(s),
        None => None,
    }
}

/// The fields that monitor mode reads from the JSON text `text` (see
/// `packet_view`): the strings `event`, `url`, `mime`, the unsigned `id`,
/// and, when `config` is an object, its keys `download_threads_max`,
/// `download_threads_min` (unsigned) and `download` (string).
pub open spec fn packet_fields_of(text: Seq<char>) -> (
    Option<Seq<char>>,
    Option<(Option<Option<u64>>, Option<Option<u64>>, Option<Option<Seq<char>>>)>,
    Option<Seq<char>>,
    Option<u64>,
    Option<Seq<char>>,
) {
    (
        text_at(text, "/event"@),
        if object_at(text, "/config"@) {
            Some(
                (
                    number_key_at(text, "/config/download_threads_max"@),
                    number_key_at(text, "/config/download_threads_min"@),
                    text_key_at(text, "/config/download"@),
                ),
            )
        } else {
            None
        },
        text_at(text, "/url"@),
        number_at(text, "/id"@),
        text_at(text, "/mime"@),
    )
}

fn text_field(text: &str, pointer: &str) -> (r: Option<String>)
    ensures
        opt_view(r) == text_at(text@, pointer@),
{
    match json_item(text, pointer) {
        Some(item) => item.text,
        None => None,
    }
}

fn number_field(text: &str, pointer: &str) -> (r: Option<u64>)
    ensures
        r == number_at(text@, pointer@),
{
    match json_item(text, pointer) {
        Some(item) => item.number,
        None => None,
    }
}

fn number_key(text: &str, pointer: &str) -> (r: Option<Option<u64>>)
    ensures
        r == number_key_at(text@, pointer@),
{
    match json_item(text, pointer) {
        Some(item) => Some(item.number),
        None => None,
    }
}

fn text_key(text: &str, pointer: &str) -> (r: Option<Option<String>>)
    ensures
        match r {
            Some(s) => text_key_at(text@, pointer@) == Some(opt_view(s)),
            None => text_key_at(text@, pointer@) is None,
        },
{
    match json_item(text, pointer) {
        Some(item) => Some(item.text),
        None => None,
    }
}

/// Reads a packet from the browser extension: the fields of the JSON text
/// `text`, or `None` when it is not JSON.
pub fn read_packet(text: &str) -> (r: Option<Packet>)
    ensures
        match json_at_pointer(text@, ""@) {
            None => r is None,
            Some(_) => r matches Some(p) && packet_view(p) == packet_fields_of(text@),
        },
{
    if json_item(text, "").is_none() {
        return None;
    }
    let is_object = match json_item(text, "/config") {
        Some(item) => item.is_object,
        None => false,
    };
    let config = if is_object {
        Some(
            ConfigFields {
                download_threads_max: number_key(text, "/config/download_threads_max"),
                download_threads_min: number_key(text, "/config/download_threads_min"),
                download: text_key(text, "/config/download"),
            },
        )
    } else {
        None
    };
    Some(
        Packet {
            event: text_field(text, "/event"),
            config,
            url: text_field(text, "/url"),
            id: number_field(text, "/id"),
            mime: text_field(text, "/mime"),
        },
    )
}

/// The folder named by the settings fields of `p`, when they name one.
pub open spec fn settings_folder(p: Packet) -> Option<Seq<char>> {
    match p.config {
        Some(c) => match c.download {
            Some(Some(d)) => Some(d@),
            _ => None,
        },
        None => None,
    }
}

impl Packet {
    /// The folder named by the settings fields, when they name one.
    pub fn download_dir(&self) -> (r: Option<String>)
        ensures
            opt_view(r) == settings_folder(*self),
    {
        match &self.config {
            Some(c) => match &c.download {
                Some(Some(d)) => Some(d.clone()),
                _ => None,
            },
            None => None,
        }
    }
}

/// Whether handling `p` reads a settings key that is absent: the keys are
/// read in turn, and each only when the ones before had the right type.
pub open spec fn reads_missing_key(p: Packet) -> bool {
    match (p.event, p.config) {
        (Some(e), Some(c)) => e@ == "SET_CONFIG"@ && {
            ||| c.download_threads_max is None
            ||| (c.download_threads_max matches Some(Some(_)) && c.download_threads_min is None)
            ||| (c.download_threads_max matches Some(Some(_)) && c.download_threads_min matches Some(
                Some(_),
            ) && c.download is None)
        },
        _ => false,
    }
}

/// Whether handling `packet` would read a settings key that is absent.
pub fn missing_config_key(packet: &Packet) -> (r: bool)
    ensures
        r == reads_missing_key(*packet),
{
    match (&packet.event, &packet.config) {
        (Some(e), Some(c)) => {
            let set_config: String = "SET_CONFIG".to_owned();
            if *e != set_config {
                return false;
            }
            match (&c.download_threads_max, &c.download_threads_min, &c.download) {
                (None, _, _) => true,
                (Some(Some(_)), None, _) => true,
                (Some(Some(_)), Some(Some(_)), None) => true,
                _ => false,
            }
        },
        _ => false,
    }
}

/// What monitor mode does with a packet.
pub enum MonitorAction {
    /// Nothing: the packet lacks a field that its event needs.
    Ignore,
    /// Send the current settings back.
    SendConfig { event: String, download: String, max: usize, min: usize, total: usize },
    /// The thread counts were saved, but the folder does not exist.
    MissingDirectory { download: String },
    /// The new settings were saved.
    Saved,
    /// Answer an event that needs no work.
    Pong { event: String },
    /// Download `url` and save it as `filename` in the download folder.
    Download { url: String, id: u64, mime: String, filename: String },
}

/// A thread count read from a packet, at least one.
pub open spec fn thread_count(n: u64) -> usize {
    if (n as usize) == 0 {
        1
    } else {
        n as usize
    }
}

/// The settings after a packet that sets them, and whether it was applied.
pub open spec fn configured(s: MonitorView, c: ConfigFields, dir_exists: bool) -> MonitorView {
    let max = thread_count(c.download_threads_max->0->0);
    let min = thread_count(c.download_threads_min->0->0);
    if dir_exists {
        MonitorView { download_folder: c.download->0->0@, max_threads: max, min_threads: min, ..s }
    } else {
        MonitorView { max_threads: max, min_threads: min, ..s }
    }
}

/// Whether a settings packet has all its fields, each of the right type.
pub open spec fn config_complete(c: ConfigFields) -> bool {
    &&& c.download_threads_max matches Some(Some(_))
    &&& c.download_threads_min matches Some(Some(_))
    &&& c.download matches Some(Some(_))
}

/// Saved thread counts are never zero, and saving settings leaves the
/// number of threads of the machine as it was.
pub proof fn law_saved_thread_counts_positive(s: MonitorView, c: ConfigFields, dir_exists: bool)
    requires
        config_complete(c),
    ensures
        configured(s, c, dir_exists).max_threads >= 1,
        configured(s, c, dir_exists).min_threads >= 1,
        configured(s, c, dir_exists).threads == s.threads,
        dir_exists ==> configured(s, c, dir_exists).download_folder == c.download->0->0@,
        !dir_exists ==> configured(s, c, dir_exists).download_folder == s.download_folder,
{
}

impl MonitorState {
    /// The settings at start: downloads go to `download_folder` and may use
    /// from a third to a half of the `threads` the machine offers.
    pub fn new(threads: usize, download_folder: String) -> (r: Self)
        ensures
            r@ == (MonitorView {
                download_folder: download_folder@,
                max_threads: ceil_div(threads as nat, 2) as usize,
                min_threads: ceil_div(threads as nat, 3) as usize,
                threads,
            }),
    {
        MonitorState {
            download_folder,
            max_threads: div_ceil(threads, 2),
            min_threads: div_ceil(threads, 3),
            threads,
        }
    }

    /// Handles one packet: answers requests for the settings, saves new
    /// settings, answers other events, and asks for downloads.
    pub fn step(&mut self, packet: Packet, download_dir_exists: bool) -> (r: MonitorAction)
        requires
            !reads_missing_key(packet),
        ensures
            match packet.event {
                None => r is Ignore && final(self)@ == old(self)@,
                Some(e) => if e@ == "download_created"@ {
                    &&& final(self)@ == old(self)@
                    &&& match (packet.url, packet.id, packet.mime) {
                        (Some(u), Some(i), Some(m)) => r matches MonitorAction::Download {
                            url,
                            id,
                            mime,
                            filename,
                        } && url@ == u@ && id == i && mime@ == m@ && filename@ == after_last(
                            u@,
                            '/',
                        ),
                        _ => r is Ignore,
                    }
                } else if e@ == "GET_DEFAULT_CONFIG"@ {
                    &&& final(self)@ == old(self)@
                    &&& r matches MonitorAction::SendConfig { event, download, max, min, total }
                    &&& event@ == e@
                    &&& download@ == old(self)@.download_folder
                    &&& max == old(self)@.max_threads
                    &&& min == old(self)@.min_threads
                    &&& total == old(self)@.threads
                } else if e@ == "SET_CONFIG"@ {
                    match packet.config {
                        Some(c) => if config_complete(c) {
                            &&& final(self)@ == configured(old(self)@, c, download_dir_exists)
                            &&& if download_dir_exists {
                                r is Saved
                            } else {
                                r matches MonitorAction::MissingDirectory { download }
                                    && download@ == c.download->0->0@
                            }
                        } else {
                            r is Ignore && final(self)@ == old(self)@
                        },
                        None => r is Ignore && final(self)@ == old(self)@,
                    }
                } else {
                    &&& final(self)@ == old(self)@
                    &&& r matches MonitorAction::Pong { event }
                    &&& event@ == e@
                },
            },
    {
        let event = match packet.event {
            Some(e) => e,
            None => return MonitorAction::Ignore,
        };
        let created: String = "download_created".to_owned();
        if event != created {
            let get_config: String = "GET_DEFAULT_CONFIG".to_owned();
            if event == get_config {
                return MonitorAction::SendConfig {
                    event,
                    download: self.download_folder.clone(),
                    max: self.max_threads,
                    min: self.min_threads,
                    total: self.threads,
                };
            }
            let set_config: String = "SET_CONFIG".to_owned();
            if event == set_config {
                let config = match packet.config {
                    Some(c) => c,
                    None => return MonitorAction::Ignore,
                };
                let th_max = match config.download_threads_max {
                    Some(Some(n)) => n,
                    _ => return MonitorAction::Ignore,
                };
                let th_min = match config.download_threads_min {
                    Some(Some(n)) => n,
                    _ => return MonitorAction::Ignore,
                };
                let download = match config.download {
                    Some(Some(d)) => d,
                    _ => return MonitorAction::Ignore,
                };
                self.max_threads = th_max as usize;
                self.min_threads = th_min as usize;
                if self.max_threads == 0 {
                    self.max_threads = 1
                }
                if self.min_threads == 0 {
                    self.min_threads = 1
                }
                if !download_dir_exists {
                    return MonitorAction::MissingDirectory { download };
                }
                self.download_folder = download;
                return MonitorAction::Saved;
            }
            return MonitorAction::Pong { event };
        }
        let url = match packet.url {
            Some(u) => u,
            None => return MonitorAction::Ignore,
        };
        let id = match packet.id {
            Some(i) => i,
            None => return MonitorAction::Ignore,
        };
        let mime = match packet.mime {
            Some(m) => m,
            None => return MonitorAction::Ignore,
        };
        let filename = chars_after_last(&chars_of(url.as_str()), '/');
        MonitorAction::Download { url, id, mime, filename }
    }
}

/// The contents of each key and text of `pairs`.
pub open spec fn text_pairs(pairs: Seq<(String, String)>) -> Seq<(Seq<char>, Seq<char>)> {
    pairs.map_values(|p: (String, String)| (p.0@, p.1@))
}

/// The contents of each key of `pairs`, with its number.
pub open spec fn number_pairs(pairs: Seq<(String, u64)>) -> Seq<(Seq<char>, u64)> {
    pairs.map_values(|p: (String, u64)| (p.0@, p.1))
}

/// The JSON text that `serde_json` writes for the object whose members are
/// the string members `strings` and the number members `numbers`.
pub uninterp spec fn json_object(
    strings: Seq<(Seq<char>, Seq<char>)>,
    numbers: Seq<(Seq<char>, u64)>,
) -> Seq<char>;

/// Builds a `serde_json::Map` from the given members (strings first, then
/// numbers) and writes it out with `Value::to_string`; the text depends on
/// the arguments alone, and the contract names it and says nothing more.
#[verifier::external_body]
fn json_object_text(strings: &[(String, String)], numbers: &[(String, u64)]) -> (r: String)
    ensures
        r@ == json_object(text_pairs(strings@), number_pairs(numbers@)),
{
    let mut m = serde_json::Map::new();
    m.extend(strings.iter().map(|(k, v)| (k.clone(), Value::from(v.as_str()))));
    m.extend(numbers.iter().map(|(k, v)| (k.clone(), Value::from(*v))));
    Value::Object(m).to_string()
}

/// The settings reply: the JSON object with the text members `event` and
/// `download` and the number members `download_threads_max`,
/// `download_threads_min` and `total_threads`.
pub open spec fn settings_json(
    event: Seq<char>,
    download: Seq<char>,
    max: usize,
    min: usize,
    total: usize,
) -> Seq<char> {
    json_object(
        seq![("event"@, event), ("download"@, download)],
        seq![
            ("download_threads_max"@, max as u64),
            ("download_threads_min"@, min as u64),
            ("total_threads"@, total as u64),
        ],
    )
}

fn settings_reply_json(event: &str, download: &str, max: usize, min: usize, total: usize) -> (r: String)
    ensures
        r@ == settings_json(event@, download@, max, min, total),
{
    let strings: Vec<(String, String)> = vec![
        ("event".to_owned(), event.to_owned()),
        ("download".to_owned(), download.to_owned()),
    ];
    let numbers: Vec<(String, u64)> = vec![
        ("download_threads_max".to_owned(), max as u64),
        ("download_threads_min".to_owned(), min as u64),
        ("total_threads".to_owned(), total as u64),
    ];
    assert(text_pairs(strings@) =~= seq![("event"@, event@), ("download"@, download@)]);
    assert(number_pairs(numbers@) =~= seq![
        ("download_threads_max"@, max as u64),
        ("download_threads_min"@, min as u64),
        ("total_threads"@, total as u64),
    ]);
    json_object_text(strings.as_slice(), numbers.as_slice())
}

/// The text sent back to the browser extension for `a`, if any.
pub open spec fn reply_for(a: MonitorAction) -> Option<Seq<char>> {
    match a {
        MonitorAction::SendConfig { event, download, max, min, total } => Some(
            settings_json(event@, download@, max, min, total),
        ),
        MonitorAction::Saved => Some("Saved"@),
        MonitorAction::Pong { event } => Some("PONG! --> "@ + event@),
        _ => None,
    }
}

/// The text sent back to the browser extension for `a`: the settings as
/// JSON, `Saved`, or `PONG! --> <event>`; nothing for the other actions.
pub fn reply_text(a: &MonitorAction) -> (r: Option<String>)
    ensures
        opt_view(r) == reply_for(*a),
{
    match a {
        MonitorAction::SendConfig { event, download, max, min, total } => Some(
            settings_reply_json(event.as_str(), download.as_str(), *max, *min, *total),
        ),
        MonitorAction::Saved => Some("Saved".to_owned()),
        MonitorAction::Pong { event } => {
            let mut text: String = "PONG! --> ".to_owned();
            text.append(event.as_str());
            Some(text)
        },
        _ => None,
    }
}

} // verus!
