//! The configuration schema, its defaults, validation and the lookups built on it.
//!
//! Everything the app needs at runtime lives in one TOML file; reading and parsing it is
//! the caller's business. Missing sections fall back to the defaults below, and
//! validation reports *every* problem at once, so a broken config takes one edit to fix.

use vstd::prelude::*;
use crate::text::{
    Strip, blank, cat, decimal, decimal_string, has_prefix, is_blank, joined, join, owned, split,
    split_on, str_eq, str_views, starts_with, string_views, strip, strip_back, strip_front, trim,
    trimmed,
};

verus! {

/// The whole configuration.
#[derive(Clone, Debug)]
pub struct Config {
    pub mqtt: Mqtt,
    pub frigate: Frigate,
    pub popup: Popup,
    pub detection: Detection,
    pub hotkey: Hotkey,
    pub cameras: Vec<Camera>,
}

/// Global hotkey for the keyboard camera picker.
#[derive(Clone, Debug)]
pub struct Hotkey {
    pub enabled: bool,
    /// Accelerator string, e.g. "F20", "CmdOrCtrl+Shift+C".
    pub binding: String,
}

#[derive(Clone, Debug)]
pub struct Mqtt {
    pub host: String,
    pub port: u16,
    pub username: Option<String>,
    /// Literal password. Mutually exclusive with `password_env`.
    pub password: Option<String>,
    /// Name of an environment variable holding the password. Preferred.
    pub password_env: Option<String>,
    pub client_id: String,
    pub topic_prefix: String,
    pub keepalive_seconds: u64,
}

#[derive(Clone, Debug)]
pub struct Frigate {
    /// Base URL of the Frigate web UI, used for click-through.
    pub ui_url: String,
    /// Base URL of the go2rtc API.
    pub go2rtc_url: String,
}

#[derive(Clone, Debug)]
pub struct Popup {
    pub width: u32,
    pub height: u32,
    pub corner: Corner,
    pub offset_x: i32,
    pub offset_y: i32,
    /// Vertical gap between stacked popups, in logical pixels.
    pub stack_gap: i32,
    pub monitor: MonitorSelect,
    /// Floor on on-screen time so a popup never blinks away when `end` arrives immediately.
    pub min_display_seconds: u64,
    /// Grace period after the object ends or goes stationary.
    pub linger_seconds: u64,
    /// Close if no `update` arrives within this long. Covers a dropped `end` event.
    pub watchdog_seconds: u64,
    /// Absolute ceiling on time on screen, whatever the events say.
    pub max_display_seconds: u64,
    pub max_popups: usize,
    /// go2rtc player mode string, e.g. "webrtc" or "webrtc,mse" for fallback.
    pub stream_mode: String,
    /// How the video fills the popup: "cover", "contain" or "fill".
    pub video_fit: String,
    /// Show go2rtc's own mode badge (RTC / MSE).
    pub show_stream_badge: bool,
    /// Which page a popup loads: "local" (bundled) or "go2rtc" (go2rtc's stream.html).
    pub page: String,
}

#[derive(Clone, Debug)]
pub struct Detection {
    pub labels: Vec<String>,
    pub cooldown_seconds: u64,
    pub ignore_false_positives: bool,
}

#[derive(Clone, Debug)]
pub struct Camera {
    /// Frigate camera name, exactly as it appears in the MQTT event's `after.camera`.
    pub name: String,
    /// go2rtc stream name used for the video feed.
    pub stream: String,
    pub enabled: bool,
    /// Overrides `detection.labels` for this camera.
    pub labels: Option<Vec<String>>,
    /// If set, the object must have entered at least one of these zones.
    pub required_zones: Option<Vec<String>>,
    /// Overrides `detection.cooldown_seconds` for this camera.
    pub cooldown_seconds: Option<u64>,
}

#[derive(Clone, Copy, Debug, PartialEq, Eq)]
pub enum Corner {
    TopLeft,
    TopRight,
    BottomLeft,
    BottomRight,
}

/// `monitor = "primary"` / `monitor = "cursor"` / `monitor = 1`
#[derive(Clone, Debug)]
pub enum MonitorSelect {
    Index(usize),
    Named(String),
}

// ---------------------------------------------------------------------------
// Defaults
// ---------------------------------------------------------------------------

pub fn default_mqtt_port() -> (r: u16)
    ensures
        r == 1883,
{
    1883
}

pub fn default_client_id() -> (r: String)
    ensures
        r@ == "frigate-popup"@,
{
    owned("frigate-popup")
}

pub fn default_topic_prefix() -> (r: String)
    ensures
        r@ == "frigate"@,
{
    owned("frigate")
}

pub fn default_keepalive() -> (r: u64)
    ensures
        r == 30,
{
    30
}

pub fn default_true() -> (r: bool)
    ensures
        r,
{
    true
}

impl Default for Hotkey {
    fn default() -> (r: Self)
        ensures
            r.enabled,
            r.binding@ == "F20"@,
    {
        // F20 has no default binding on Windows and no physical key on most keyboards,
        // which makes it a safe target for a macro key.
        Hotkey { enabled: true, binding: owned("F20") }
    }
}

impl Default for Popup {
    fn default() -> (r: Self)
        ensures
            r.width == 480,
            r.height == 270,
            r.corner == Corner::BottomRight,
            r.offset_x == 24,
            r.offset_y == 24,
            r.stack_gap == 12,
            r.monitor matches MonitorSelect::Named(n) && n@ == "primary"@,
            r.min_display_seconds == 8,
            r.linger_seconds == 15,
            r.watchdog_seconds == 20,
            r.max_display_seconds == 120,
            r.max_popups == 2,
            r.stream_mode@ == "webrtc"@,
            r.video_fit@ == "cover"@,
            !r.show_stream_badge,
            r.page@ == "local"@,
    {
        Popup {
            width: 480,
            height: 270,
            corner: Corner::BottomRight,
            offset_x: 24,
            offset_y: 24,
            stack_gap: 12,
            monitor: MonitorSelect::Named(owned("primary")),
            min_display_seconds: 8,
            linger_seconds: 15,
            watchdog_seconds: 20,
            max_display_seconds: 120,
            max_popups: 2,
            stream_mode: owned("webrtc"),
            video_fit: owned("cover"),
            show_stream_badge: false,
            page: owned("local"),
        }
    }
}

impl Default for Detection {
    fn default() -> (r: Self)
        ensures
            string_views(r.labels@) == seq!["person"@],
            r.cooldown_seconds == 60,
            r.ignore_false_positives,
    {
        let mut labels: Vec<String> = Vec::new();
        labels.push(owned("person"));
        assert(string_views(labels@) =~= seq!["person"@]);
        Detection { labels, cooldown_seconds: 60, ignore_false_positives: true }
    }
}

// ---------------------------------------------------------------------------
// Lookups
// ---------------------------------------------------------------------------

/// The first camera in `cams` named `name`.
pub open spec fn find_camera(cams: Seq<Camera>, name: Seq<char>) -> Option<Camera>
    decreases cams.len(),
{
    if cams.len() == 0 {
        None
    } else if cams[0].name@ == name {
        Some(cams[0])
    } else {
        find_camera(cams.drop_first(), name)
    }
}

/// The labels that trigger for `cam`: its own list when it has one, else the global list.
pub open spec fn labels_for_spec(c: Config, cam: Camera) -> Seq<String> {
    match cam.labels {
        Some(l) => l@,
        None => c.detection.labels@,
    }
}

/// The cooldown for `cam` in seconds: its own when set, else the global one.
pub open spec fn cooldown_for_spec(c: Config, cam: Camera) -> u64 {
    match cam.cooldown_seconds {
        Some(s) => s,
        None => c.detection.cooldown_seconds,
    }
}

impl Hotkey {
    /// The accelerator to register, trimmed; none when the hotkey is disabled.
    pub fn binding_to_register(&self) -> (r: Option<&str>)
        ensures
            self.enabled ==> (r matches Some(b) && b@ == trimmed(self.binding@)),
            !self.enabled ==> r is None,
    {
        if self.enabled {
            Some(trim(self.binding.as_str()))
        } else {
            None
        }
    }
}

impl Config {
    /// The first configured camera with this name.
    pub fn camera(&self, name: &str) -> (r: Option<&Camera>)
        ensures
            match r {
                Some(c) => find_camera(self.cameras@, name@) == Some(*c),
                None => find_camera(self.cameras@, name@) is None,
            },
    {
        let n = self.cameras.len();
        let mut i: usize = 0;
        assert(self.cameras@.subrange(0, n as int) =~= self.cameras@);
        while i < n
            invariant
                i <= n,
                n == self.cameras@.len(),
                find_camera(self.cameras@, name@) == find_camera(
                    self.cameras@.subrange(i as int, n as int),
                    name@,
                ),
            decreases n - i,
        {
            assert(self.cameras@.subrange(i as int, n as int).drop_first() =~= self.cameras@.subrange(
                i as int + 1,
                n as int,
            ));
            if str_eq(self.cameras[i].name.as_str(), name) {
                return Some(&self.cameras[i]);
            }
            i = i + 1;
        }
        None
    }

    /// Labels that should trigger for this camera, honouring the per-camera override.
    pub fn labels_for<'a>(&'a self, camera: &'a Camera) -> (r: &'a Vec<String>)
        ensures
            r@ == labels_for_spec(*self, *camera),
    {
        match &camera.labels {
            Some(l) => l,
            None => &self.detection.labels,
        }
    }

    /// The cooldown for this camera in seconds, honouring the per-camera override.
    pub fn cooldown_for(&self, camera: &Camera) -> (r: u64)
        ensures
            r == cooldown_for_spec(*self, *camera),
    {
        match camera.cooldown_seconds {
            Some(s) => s,
            None => self.detection.cooldown_seconds,
        }
    }

    /// Frigate UI deep link for a camera, used when a popup is clicked.
    pub fn camera_ui_url(&self, camera: &str) -> (r: String)
        ensures
            r@ == self.frigate.ui_url@ + "/cameras/"@ + camera@,
    {
        let mut r = cat(self.frigate.ui_url.as_str(), "/cameras/");
        r.append(camera);
        r
    }

    /// go2rtc player page for a stream.
    pub fn stream_url(&self, stream: &str) -> (r: String)
        ensures
            r@ == self.frigate.go2rtc_url@ + "/stream.html?src="@ + stream@ + "&mode="@
                + self.popup.stream_mode@,
    {
        let mut r = cat(self.frigate.go2rtc_url.as_str(), "/stream.html?src=");
        r.append(stream);
        r.append("&mode=");
        r.append(self.popup.stream_mode.as_str());
        r
    }

    /// go2rtc single-frame JPEG, used for the snapshot-first paint.
    pub fn frame_url(&self, stream: &str) -> (r: String)
        ensures
            r@ == self.frigate.go2rtc_url@ + "/api/frame.jpeg?src="@ + stream@,
    {
        let mut r = cat(self.frigate.go2rtc_url.as_str(), "/api/frame.jpeg?src=");
        r.append(stream);
        r
    }
}


// ---------------------------------------------------------------------------
// Normalising and validation
// ---------------------------------------------------------------------------

/// `b` is `a` with the trailing slashes of both URLs and the slashes around the topic
/// prefix removed, and nothing else changed.
pub open spec fn normalized_from(a: Config, b: Config) -> bool {
    &&& b.frigate.ui_url@ == strip_back(a.frigate.ui_url@, Strip::Slash)
    &&& b.frigate.go2rtc_url@ == strip_back(a.frigate.go2rtc_url@, Strip::Slash)
    &&& b.mqtt.topic_prefix@ == strip_back(strip_front(a.mqtt.topic_prefix@, Strip::Slash), Strip::Slash)
    &&& b.mqtt.host == a.mqtt.host
    &&& b.mqtt.port == a.mqtt.port
    &&& b.mqtt.username == a.mqtt.username
    &&& b.mqtt.password == a.mqtt.password
    &&& b.mqtt.password_env == a.mqtt.password_env
    &&& b.mqtt.client_id == a.mqtt.client_id
    &&& b.mqtt.keepalive_seconds == a.mqtt.keepalive_seconds
    &&& b.popup == a.popup
    &&& b.detection == a.detection
    &&& b.hotkey == a.hotkey
    &&& b.cameras == a.cameras
}

/// After stripping, a string never ends with the stripped character.
proof fn lemma_strip_back_ends_clean(s: Seq<char>, cls: Strip)
    ensures
        !(strip_back(s, cls).len() > 0 && crate::text::stripped(cls, strip_back(s, cls).last())),
    decreases s.len(),
{
    if s.len() > 0 && crate::text::stripped(cls, s.last()) {
        lemma_strip_back_ends_clean(s.drop_last(), cls);
    }
}

/// After stripping, a string never starts with the stripped character.
proof fn lemma_strip_front_starts_clean(s: Seq<char>, cls: Strip)
    ensures
        !(strip_front(s, cls).len() > 0 && crate::text::stripped(cls, strip_front(s, cls)[0])),
    decreases s.len(),
{
    if s.len() > 0 && crate::text::stripped(cls, s[0]) {
        lemma_strip_front_starts_clean(s.drop_first(), cls);
    }
}

/// Stripping from the back keeps a string's start: the result is a prefix of it.
proof fn lemma_strip_back_is_prefix(s: Seq<char>, cls: Strip)
    ensures
        strip_back(s, cls).len() <= s.len(),
        strip_back(s, cls) == s.take(strip_back(s, cls).len() as int),
    decreases s.len(),
{
    if s.len() > 0 && crate::text::stripped(cls, s.last()) {
        lemma_strip_back_is_prefix(s.drop_last(), cls);
        assert(s.drop_last().take(strip_back(s, cls).len() as int) =~= s.take(
            strip_back(s, cls).len() as int,
        ));
    } else {
        assert(s.take(s.len() as int) =~= s);
    }
}

/// Once normalised, neither URL ends with a slash - so building URLs from them never
/// doubles one up - and the topic prefix neither starts nor ends with one.
pub proof fn normalized_urls_have_no_stray_slashes(a: Config, b: Config)
    requires
        normalized_from(a, b),
    ensures
        !(b.frigate.ui_url@.len() > 0 && b.frigate.ui_url@.last() == '/'),
        !(b.frigate.go2rtc_url@.len() > 0 && b.frigate.go2rtc_url@.last() == '/'),
        !(b.mqtt.topic_prefix@.len() > 0 && b.mqtt.topic_prefix@.last() == '/'),
        !(b.mqtt.topic_prefix@.len() > 0 && b.mqtt.topic_prefix@[0] == '/'),
{
    lemma_strip_back_ends_clean(a.frigate.ui_url@, Strip::Slash);
    lemma_strip_back_ends_clean(a.frigate.go2rtc_url@, Strip::Slash);
    let f = strip_front(a.mqtt.topic_prefix@, Strip::Slash);
    lemma_strip_back_ends_clean(f, Strip::Slash);
    lemma_strip_front_starts_clean(a.mqtt.topic_prefix@, Strip::Slash);
    lemma_strip_back_is_prefix(f, Strip::Slash);
    if strip_back(f, Strip::Slash).len() > 0 {
        assert(strip_back(f, Strip::Slash)[0] == f[0]);
    }
}

/// Normalising twice changes nothing more than normalising once.
pub proof fn normalizing_is_idempotent(a: Config, b: Config, c: Config)
    requires
        normalized_from(a, b),
        normalized_from(b, c),
    ensures
        c.frigate.ui_url@ == b.frigate.ui_url@,
        c.frigate.go2rtc_url@ == b.frigate.go2rtc_url@,
        c.mqtt.topic_prefix@ == b.mqtt.topic_prefix@,
{
    normalized_urls_have_no_stray_slashes(a, b);
    let u = b.frigate.ui_url@;
    let g = b.frigate.go2rtc_url@;
    let t = b.mqtt.topic_prefix@;
    assert(strip_back(u, Strip::Slash) == u);
    assert(strip_back(g, Strip::Slash) == g);
    assert(strip_front(t, Strip::Slash) == t);
    assert(strip_back(t, Strip::Slash) == t);
}

/// `[msg]` when `cond` holds, else nothing.
pub open spec fn when(cond: bool, msg: Seq<char>) -> Seq<Seq<char>> {
    if cond {
        seq![msg]
    } else {
        Seq::<Seq<char>>::empty()
    }
}

pub open spec fn mqtt_problems(m: Mqtt, password_env_set: bool) -> Seq<Seq<char>> {
    when(blank(m.host@), "mqtt.host is empty"@) + when(m.port == 0, "mqtt.port must be 1-65535"@)
        + when(
        m.password is Some && m.password_env is Some,
        "mqtt.password and mqtt.password_env are both set - pick one"@,
    ) + when(
        m.password_env is Some && !password_env_set,
        "mqtt.password_env points at environment variable `"@ + m.password_env->0@
            + "`, which is not set"@,
    ) + when(
        m.topic_prefix@.len() == 0,
        "mqtt.topic_prefix is empty (the Frigate default is \"frigate\")"@,
    )
}

pub open spec fn url_problems(field: Seq<char>, url: Seq<char>) -> Seq<Seq<char>> {
    when(
        !has_prefix(url, "http://"@) && !has_prefix(url, "https://"@),
        field + " = \""@ + url + "\" must start with http:// or https://"@,
    )
}

pub open spec fn known_mode(m: Seq<char>) -> bool {
    m == "webrtc"@ || m == "mse"@ || m == "hls"@ || m == "mjpeg"@ || m == "mp4"@
}

/// One problem per piece of the comma-separated stream mode that, trimmed, is not a
/// go2rtc mode.
pub open spec fn mode_problems(pieces: Seq<Seq<char>>) -> Seq<Seq<char>>
    decreases pieces.len(),
{
    if pieces.len() == 0 {
        Seq::<Seq<char>>::empty()
    } else {
        let m = trimmed(pieces.last());
        mode_problems(pieces.drop_last()) + when(
            !known_mode(m),
            "popup.stream_mode contains unknown mode \""@ + m
                + "\" - valid modes are webrtc, mse, hls, mjpeg, mp4"@,
        )
    }
}

pub open spec fn timing_problems(p: Popup) -> Seq<Seq<char>> {
    when(p.width == 0 || p.height == 0, "popup.width and popup.height must both be greater than 0"@)
        + when(p.max_popups == 0, "popup.max_popups must be at least 1"@) + when(
        p.watchdog_seconds == 0,
        "popup.watchdog_seconds must be greater than 0"@,
    ) + when(p.max_display_seconds == 0, "popup.max_display_seconds must be greater than 0"@)
        + when(
        p.min_display_seconds > p.max_display_seconds,
        "popup.min_display_seconds ("@ + decimal(p.min_display_seconds as nat)
            + ") cannot exceed popup.max_display_seconds ("@ + decimal(
            p.max_display_seconds as nat,
        ) + ")"@,
    ) + when(
        p.linger_seconds > p.max_display_seconds,
        "popup.linger_seconds ("@ + decimal(p.linger_seconds as nat)
            + ") cannot exceed popup.max_display_seconds ("@ + decimal(
            p.max_display_seconds as nat,
        ) + "), so the linger would always be cut short"@,
    )
}

pub open spec fn choice_problems(p: Popup) -> Seq<Seq<char>> {
    (match p.monitor {
        MonitorSelect::Named(name) => when(
            name@ != "primary"@ && name@ != "cursor"@,
            "popup.monitor = \""@ + name@
                + "\" is not recognised - use \"primary\", \"cursor\", or a 0-based monitor index"@,
        ),
        MonitorSelect::Index(_) => Seq::<Seq<char>>::empty(),
    }) + mode_problems(split_on(p.stream_mode@, ',')) + when(
        p.page@ != "local"@ && p.page@ != "go2rtc"@,
        "popup.page = \""@ + p.page@ + "\" is not recognised - use local, go2rtc"@,
    ) + when(
        p.video_fit@ != "cover"@ && p.video_fit@ != "contain"@ && p.video_fit@ != "fill"@,
        "popup.video_fit = \""@ + p.video_fit@ + "\" is not recognised - use cover, contain, fill"@,
    )
}

/// The problems of camera `i` in `cams`.
pub open spec fn camera_problems(cams: Seq<Camera>, i: int) -> Seq<Seq<char>> {
    let c = cams[i];
    let at = "cameras["@ + decimal(i as nat) + "]"@;
    (if blank(c.name@) {
        seq![at + ".name is empty"@]
    } else {
        when(
            exists|j: int| 0 <= j < i && #[trigger] cams[j].name@ == c.name@,
            at + ".name = \""@ + c.name@ + "\" is defined twice"@,
        )
    }) + when(blank(c.stream@), at + ".stream is empty (the go2rtc stream name)"@) + when(
        c.labels is Some && c.labels->0@.len() == 0,
        at + ".labels is an empty list - remove it to inherit detection.labels"@,
    )
}

/// The problems of the first `n` cameras, in order.
pub open spec fn cameras_problems(cams: Seq<Camera>, n: int) -> Seq<Seq<char>>
    decreases n,
{
    if n <= 0 {
        Seq::<Seq<char>>::empty()
    } else {
        cameras_problems(cams, n - 1) + camera_problems(cams, n - 1)
    }
}

/// Every validation failure of `c`, in the order they are reported. `password_env_set`
/// says whether the environment variable named by `mqtt.password_env` is set.
pub open spec fn problems_spec(c: Config, password_env_set: bool) -> Seq<Seq<char>> {
    let cams = c.cameras@;
    mqtt_problems(c.mqtt, password_env_set) + url_problems("frigate.ui_url"@, c.frigate.ui_url@)
        + url_problems("frigate.go2rtc_url"@, c.frigate.go2rtc_url@) + timing_problems(c.popup)
        + choice_problems(c.popup) + when(
        c.hotkey.enabled && blank(c.hotkey.binding@),
        "hotkey.binding is empty; set a key or use hotkey.enabled = false"@,
    ) + when(
        c.detection.labels@.len() == 0,
        "detection.labels is empty, so nothing would ever trigger"@,
    ) + when(cams.len() == 0, "no [[cameras]] entries defined"@) + cameras_problems(
        cams,
        cams.len() as int,
    ) + when(
        cams.len() > 0 && !(exists|i: int| 0 <= i < cams.len() && #[trigger] cams[i].enabled),
        "every camera has enabled = false, so nothing would ever trigger"@,
    )
}

/// The report listing `problems`, one per line.
pub open spec fn report(problems: Seq<Seq<char>>) -> Seq<char> {
    joined(problems.map_values(|p: Seq<char>| "  - "@ + p), "\n"@)
}

/// The configuration is unusable; `details` lists each problem on a line of its own.
#[derive(Debug)]
pub struct Problems {
    pub count: usize,
    pub details: String,
}

fn push_msg(p: &mut Vec<String>, m: String)
    ensures
        string_views(final(p)@) == string_views(old(p)@) + seq![m@],
{
    let ghost prev = p@;
    p.push(m);
    assert(string_views(p@) =~= string_views(prev) + seq![m@]);
}

fn push_when(p: &mut Vec<String>, cond: bool, m: &str)
    ensures
        string_views(final(p)@) == string_views(old(p)@) + when(cond, m@),
{
    if cond {
        push_msg(p, owned(m));
    } else {
        assert(string_views(p@) =~= string_views(p@) + when(cond, m@));
    }
}

fn is_one_of(s: &str, a: &str, b: &str) -> (r: bool)
    ensures
        r == (s@ == a@ || s@ == b@),
{
    str_eq(s, a) || str_eq(s, b)
}

fn check_url(p: &mut Vec<String>, field: &str, url: &str)
    ensures
        string_views(final(p)@) == string_views(old(p)@) + url_problems(field@, url@),
{
    if !starts_with(url, "http://") && !starts_with(url, "https://") {
        let mut m = cat(field, " = \"");
        m.append(url);
        m.append("\" must start with http:// or https://");
        push_msg(p, m);
    } else {
        assert(string_views(p@) =~= string_views(p@) + url_problems(field@, url@));
    }
}

fn check_modes(p: &mut Vec<String>, mode: &str)
    ensures
        string_views(final(p)@) == string_views(old(p)@) + mode_problems(split_on(mode@, ',')),
{
    let pieces = split(mode, ',');
    let n = pieces.len();
    let ghost start = string_views(p@);
    let mut i: usize = 0;
    assert(str_views(pieces@).take(0) =~= Seq::<Seq<char>>::empty());
    assert(string_views(p@) =~= start + mode_problems(str_views(pieces@).take(0)));
    while i < n
        invariant
            i <= n,
            n == pieces@.len(),
            str_views(pieces@) == split_on(mode@, ','),
            string_views(p@) == start + mode_problems(str_views(pieces@).take(i as int)),
        decreases n - i,
    {
        let ghost prev = string_views(p@);
        let m = trim(pieces[i]);
        let known = str_eq(m, "webrtc") || str_eq(m, "mse") || str_eq(m, "hls") || str_eq(m, "mjpeg")
            || str_eq(m, "mp4");
        assert(str_views(pieces@).take(i as int + 1).drop_last() =~= str_views(pieces@).take(i as int));
        assert(str_views(pieces@).take(i as int + 1).last() == pieces@[i as int]@);
        if !known {
            let mut msg = cat("popup.stream_mode contains unknown mode \"", m);
            msg.append("\" - valid modes are webrtc, mse, hls, mjpeg, mp4");
            push_msg(p, msg);
        }
        assert(string_views(p@) =~= start + mode_problems(str_views(pieces@).take(i as int + 1)));
        i = i + 1;
    }
    assert(str_views(pieces@).take(n as int) =~= str_views(pieces@));
}

impl Config {
    /// Trailing slashes would double up when URLs are built later.
    pub fn normalize(&mut self)
        ensures
            normalized_from(*old(self), *final(self)),
    {
        self.frigate.ui_url = owned(strip(self.frigate.ui_url.as_str(), Strip::Slash, false, true));
        self.frigate.go2rtc_url = owned(
            strip(self.frigate.go2rtc_url.as_str(), Strip::Slash, false, true),
        );
        self.mqtt.topic_prefix = owned(strip(self.mqtt.topic_prefix.as_str(), Strip::Slash, true, true));
    }

    fn mqtt_checks(&self, password_env_set: bool, p: &mut Vec<String>)
        ensures
            string_views(final(p)@) == string_views(old(p)@) + mqtt_problems(self.mqtt, password_env_set),
    {
        let ghost start = string_views(p@);
        push_when(p, is_blank(self.mqtt.host.as_str()), "mqtt.host is empty");
        push_when(p, self.mqtt.port == 0, "mqtt.port must be 1-65535");
        push_when(
            p,
            self.mqtt.password.is_some() && self.mqtt.password_env.is_some(),
            "mqtt.password and mqtt.password_env are both set - pick one",
        );
        let ghost mid = string_views(p@);
        match &self.mqtt.password_env {
            Some(var) => {
                if !password_env_set {
                    let mut m = cat("mqtt.password_env points at environment variable `", var.as_str());
                    m.append("`, which is not set");
                    push_msg(p, m);
                } else {
                    assert(string_views(p@) =~= mid + Seq::<Seq<char>>::empty());
                }
            },
            None => {
                assert(string_views(p@) =~= mid + Seq::<Seq<char>>::empty());
            },
        }
        push_when(
            p,
            self.mqtt.topic_prefix.as_str().unicode_len() == 0,
            "mqtt.topic_prefix is empty (the Frigate default is \"frigate\")",
        );
        assert(string_views(p@) =~= start + mqtt_problems(self.mqtt, password_env_set));
    }

    #[verifier::spinoff_prover]
    fn timing_checks(&self, p: &mut Vec<String>)
        ensures
            string_views(final(p)@) == string_views(old(p)@) + timing_problems(self.popup),
    {
        let ghost start = string_views(p@);
        let pp = &self.popup;
        push_when(
            p,
            pp.width == 0 || pp.height == 0,
            "popup.width and popup.height must both be greater than 0",
        );
        push_when(p, pp.max_popups == 0, "popup.max_popups must be at least 1");
        push_when(p, pp.watchdog_seconds == 0, "popup.watchdog_seconds must be greater than 0");
        push_when(p, pp.max_display_seconds == 0, "popup.max_display_seconds must be greater than 0");
        let ghost mid = string_views(p@);
        if pp.min_display_seconds > pp.max_display_seconds {
            let mut m = cat("popup.min_display_seconds (", decimal_string(pp.min_display_seconds).as_str());
            m.append(") cannot exceed popup.max_display_seconds (");
            m.append(decimal_string(pp.max_display_seconds).as_str());
            m.append(")");
            push_msg(p, m);
        } else {
            assert(string_views(p@) =~= mid + Seq::<Seq<char>>::empty());
        }
        let ghost mid2 = string_views(p@);
        if pp.linger_seconds > pp.max_display_seconds {
            let mut m = cat("popup.linger_seconds (", decimal_string(pp.linger_seconds).as_str());
            m.append(") cannot exceed popup.max_display_seconds (");
            m.append(decimal_string(pp.max_display_seconds).as_str());
            m.append("), so the linger would always be cut short");
            push_msg(p, m);
        } else {
            assert(string_views(p@) =~= mid2 + Seq::<Seq<char>>::empty());
        }
        assert(string_views(p@) =~= start + timing_problems(self.popup));
    }

    fn choice_checks(&self, p: &mut Vec<String>)
        ensures
            string_views(final(p)@) == string_views(old(p)@) + choice_problems(self.popup),
    {
        let ghost start = string_views(p@);
        let pp = &self.popup;
        match &pp.monitor {
            MonitorSelect::Named(name) => {
                if !is_one_of(name.as_str(), "primary", "cursor") {
                    let mut m = cat("popup.monitor = \"", name.as_str());
                    m.append(
                        "\" is not recognised - use \"primary\", \"cursor\", or a 0-based monitor index",
                    );
                    push_msg(p, m);
                } else {
                    assert(string_views(p@) =~= start + Seq::<Seq<char>>::empty());
                }
            },
            MonitorSelect::Index(_) => {
                assert(string_views(p@) =~= start + Seq::<Seq<char>>::empty());
            },
        }
        let ghost a = string_views(p@);
        check_modes(p, pp.stream_mode.as_str());
        let ghost b = string_views(p@);
        if !is_one_of(pp.page.as_str(), "local", "go2rtc") {
            let mut m = cat("popup.page = \"", pp.page.as_str());
            m.append("\" is not recognised - use local, go2rtc");
            push_msg(p, m);
        } else {
            assert(string_views(p@) =~= b + Seq::<Seq<char>>::empty());
        }
        let ghost c = string_views(p@);
        if !is_one_of(pp.video_fit.as_str(), "cover", "contain") && !str_eq(pp.video_fit.as_str(), "fill") {
            let mut m = cat("popup.video_fit = \"", pp.video_fit.as_str());
            m.append("\" is not recognised - use cover, contain, fill");
            push_msg(p, m);
        } else {
            assert(string_views(p@) =~= c + Seq::<Seq<char>>::empty());
        }
        assert(string_views(p@) =~= start + choice_problems(self.popup));
    }

    /// Whether an earlier camera than `i` has the same name as camera `i`.
    fn named_earlier(&self, i: usize) -> (r: bool)
        requires
            i < self.cameras@.len(),
        ensures
            r == exists|j: int| 0 <= j < i && #[trigger] self.cameras@[j].name@ == self.cameras@[i as int].name@,
    {
        let mut j: usize = 0;
        while j < i
            invariant
                j <= i < self.cameras@.len(),
                forall|k: int| 0 <= k < j ==> #[trigger] self.cameras@[k].name@ != self.cameras@[i as int].name@,
            decreases i - j,
        {
            if str_eq(self.cameras[j].name.as_str(), self.cameras[i].name.as_str()) {
                return true;
            }
            j = j + 1;
        }
        false
    }

    fn camera_checks(&self, i: usize, p: &mut Vec<String>)
        requires
            i < self.cameras@.len(),
        ensures
            string_views(final(p)@) == string_views(old(p)@) + camera_problems(self.cameras@, i as int),
    {
        let ghost start = string_views(p@);
        let cam = &self.cameras[i];
        let at = cat(cat("cameras[", decimal_string(i as u64).as_str()).as_str(), "]");
        assert(at@ == "cameras["@ + decimal(i as nat) + "]"@);
        if is_blank(cam.name.as_str()) {
            push_msg(p, cat(at.as_str(), ".name is empty"));
        } else if self.named_earlier(i) {
            let mut m = cat(at.as_str(), ".name = \"");
            m.append(cam.name.as_str());
            m.append("\" is defined twice");
            push_msg(p, m);
        } else {
            assert(string_views(p@) =~= start + Seq::<Seq<char>>::empty());
        }
        let ghost a = string_views(p@);
        if is_blank(cam.stream.as_str()) {
            push_msg(p, cat(at.as_str(), ".stream is empty (the go2rtc stream name)"));
        } else {
            assert(string_views(p@) =~= a + Seq::<Seq<char>>::empty());
        }
        let ghost b = string_views(p@);
        let empty_labels = match &cam.labels {
            Some(l) => l.len() == 0,
            None => false,
        };
        if empty_labels {
            push_msg(p, cat(at.as_str(), ".labels is an empty list - remove it to inherit detection.labels"));
        } else {
            assert(string_views(p@) =~= b + Seq::<Seq<char>>::empty());
        }
        assert(string_views(p@) =~= start + camera_problems(self.cameras@, i as int));
    }

    fn any_enabled(&self) -> (r: bool)
        ensures
            r == exists|i: int| 0 <= i < self.cameras@.len() && #[trigger] self.cameras@[i].enabled,
    {
        let n = self.cameras.len();
        let mut i: usize = 0;
        while i < n
            invariant
                i <= n,
                n == self.cameras@.len(),
                forall|j: int| 0 <= j < i ==> !#[trigger] self.cameras@[j].enabled,
            decreases n - i,
        {
            if self.cameras[i].enabled {
                return true;
            }
            i = i + 1;
        }
        false
    }

    /// Every validation failure, gathered so the user sees all of them in one pass.
    /// `password_env_set` says whether the environment variable that `mqtt.password_env`
    /// names is set.
    pub fn problems(&self, password_env_set: bool) -> (r: Vec<String>)
        ensures
            string_views(r@) == problems_spec(*self, password_env_set),
    {
        let mut p: Vec<String> = Vec::new();
        assert(string_views(p@) =~= Seq::<Seq<char>>::empty());
        self.mqtt_checks(password_env_set, &mut p);
        check_url(&mut p, "frigate.ui_url", self.frigate.ui_url.as_str());
        check_url(&mut p, "frigate.go2rtc_url", self.frigate.go2rtc_url.as_str());
        self.timing_checks(&mut p);
        self.choice_checks(&mut p);
        push_when(
            &mut p,
            self.hotkey.enabled && is_blank(self.hotkey.binding.as_str()),
            "hotkey.binding is empty; set a key or use hotkey.enabled = false",
        );
        push_when(
            &mut p,
            self.detection.labels.len() == 0,
            "detection.labels is empty, so nothing would ever trigger",
        );
        push_when(&mut p, self.cameras.len() == 0, "no [[cameras]] entries defined");
        let ghost before = string_views(p@);
        let n = self.cameras.len();
        let mut i: usize = 0;
        while i < n
            invariant
                i <= n,
                n == self.cameras@.len(),
                string_views(p@) == before + cameras_problems(self.cameras@, i as int),
            decreases n - i,
        {
            self.camera_checks(i, &mut p);
            assert(string_views(p@) =~= before + cameras_problems(self.cameras@, i as int + 1));
            i = i + 1;
        }
        push_when(
            &mut p,
            n > 0 && !self.any_enabled(),
            "every camera has enabled = false, so nothing would ever trigger",
        );
        assert(string_views(p@) =~= problems_spec(*self, password_env_set));
        p
    }

    /// Normalises the config, then validates it. `password_env_set` says whether the
    /// environment variable that `mqtt.password_env` names is set.
    pub fn normalize_and_validate(&mut self, password_env_set: bool) -> (r: Result<(), Problems>)
        ensures
            normalized_from(*old(self), *final(self)),
            match r {
                Ok(()) => problems_spec(*final(self), password_env_set).len() == 0,
                Err(p) => {
                    &&& problems_spec(*final(self), password_env_set).len() > 0
                    &&& p.count == problems_spec(*final(self), password_env_set).len()
                    &&& p.details@ == report(problems_spec(*final(self), password_env_set))
                },
            },
    {
        self.normalize();
        let problems = self.problems(password_env_set);
        if problems.len() == 0 {
            return Ok(());
        }
        let count = problems.len();
        let details = problem_report(&problems);
        Err(Problems { count, details })
    }

    /// The MQTT password: the literal one when set, else the value of the environment
    /// variable `mqtt.password_env` names, which the caller read into `env_value`
    /// (`None` when it is not set). Fails when neither yields a password although the
    /// variable was named; the error names the variable.
    pub fn mqtt_password(&self, env_value: Option<String>) -> (r: Result<Option<String>, String>)
        ensures
            match (self.mqtt.password, self.mqtt.password_env) {
                (Some(p), _) => r matches Ok(Some(q)) && q@ == p@,
                (None, Some(var)) => match env_value {
                    Some(v) => r matches Ok(Some(q)) && q@ == v@,
                    None => r matches Err(e) && e@
                        == "reading MQTT password from environment variable `"@ + var@ + "`"@,
                },
                (None, None) => r matches Ok(None),
            },
    {
        match (&self.mqtt.password, &self.mqtt.password_env) {
            (Some(p), _) => Ok(Some(p.clone())),
            (None, Some(var)) => match env_value {
                Some(v) => Ok(Some(v)),
                None => {
                    let mut e = cat("reading MQTT password from environment variable `", var.as_str());
                    e.append("`");
                    Err(e)
                },
            },
            (None, None) => Ok(None),
        }
    }
}

/// Each problem on a line of its own, indented as a list.
pub fn problem_report(problems: &Vec<String>) -> (r: String)
    ensures
        r@ == report(string_views(problems@)),
{
    let n = problems.len();
    let mut lines: Vec<String> = Vec::new();
    let mut i: usize = 0;
    while i < n
        invariant
            i <= n,
            n == problems@.len(),
            string_views(lines@) == string_views(problems@).take(i as int).map_values(
                |p: Seq<char>| "  - "@ + p,
            ),
        decreases n - i,
    {
        let ghost prev = string_views(lines@);
        lines.push(cat("  - ", problems[i].as_str()));
        assert(string_views(lines@) =~= prev.push("  - "@ + problems@[i as int]@));
        assert(string_views(lines@) =~= string_views(problems@).take(i as int + 1).map_values(
            |p: Seq<char>| "  - "@ + p,
        ));
        i = i + 1;
    }
    assert(string_views(problems@).take(n as int) =~= string_views(problems@));
    join(&lines, "\n")
}


// ---------------------------------------------------------------------------
// The stream-mode complaints
// ---------------------------------------------------------------------------

/// How every complaint about an unknown stream mode begins.
pub open spec fn unknown_mode_prefix() -> Seq<char> {
    "popup.stream_mode contains unknown mode \""@
}

/// The complaint about the unknown stream mode `m`.
pub open spec fn mode_message(m: Seq<char>) -> Seq<char> {
    "popup.stream_mode contains unknown mode \""@ + m
        + "\" - valid modes are webrtc, mse, hls, mjpeg, mp4"@
}

/// Whether a problem is a complaint about an unknown stream mode.
pub open spec fn mode_complaint(p: Seq<char>) -> bool {
    has_prefix(p, unknown_mode_prefix())
}

/// The stream-mode complaints among `problems`, in order.
#[verifier::opaque]
pub open spec fn complaints(problems: Seq<Seq<char>>) -> Seq<Seq<char>> {
    problems.filter(|p: Seq<char>| mode_complaint(p))
}

/// The complaint for each of `modes`, in order.
pub open spec fn mode_messages(modes: Seq<Seq<char>>) -> Seq<Seq<char>> {
    modes.map_values(|m: Seq<char>| mode_message(m))
}

/// The trimmed pieces of a comma-separated stream mode that are not go2rtc modes, in
/// order.
pub open spec fn unknown_modes(pieces: Seq<Seq<char>>) -> Seq<Seq<char>>
    decreases pieces.len(),
{
    if pieces.len() == 0 {
        Seq::<Seq<char>>::empty()
    } else {
        let m = trimmed(pieces.last());
        unknown_modes(pieces.drop_last()) + if known_mode(m) {
            Seq::<Seq<char>>::empty()
        } else {
            seq![m]
        }
    }
}

/// A problem whose `i`th character differs from the unknown-mode prefix is no
/// complaint about a stream mode.
proof fn lemma_not_complaint(s: Seq<char>, i: int)
    requires
        0 <= i < s.len(),
        i < unknown_mode_prefix().len(),
        s[i] != unknown_mode_prefix()[i],
    ensures
        !mode_complaint(s),
{
    if mode_complaint(s) {
        assert(s.subrange(0, unknown_mode_prefix().len() as int)[i] == s[i]);
    }
}

/// A conditional problem that is no stream-mode complaint is dropped by the filter.
proof fn lemma_when_dropped(cond: bool, msg: Seq<char>, i: int)
    requires
        0 <= i < msg.len(),
        i < unknown_mode_prefix().len(),
        msg[i] != unknown_mode_prefix()[i],
    ensures
        complaints(when(cond, msg)) == Seq::<Seq<char>>::empty(),
{
    reveal(complaints);
    lemma_not_complaint(msg, i);
    reveal_with_fuel(Seq::filter, 2);
    if cond {
        assert(when(cond, msg).drop_last() =~= Seq::<Seq<char>>::empty());
    }
}

/// Every complaint about a stream mode begins with the prefix.
proof fn lemma_mode_message_complains(m: Seq<char>)
    ensures
        mode_complaint(mode_message(m)),
{
    assert(mode_message(m).subrange(0, unknown_mode_prefix().len() as int) =~= unknown_mode_prefix());
}

/// The complaints among the mode problems are one per unknown trimmed piece, in order.
proof fn lemma_mode_problems_complaints(pieces: Seq<Seq<char>>)
    ensures
        complaints(mode_problems(pieces)) == mode_messages(unknown_modes(pieces)),
    decreases pieces.len(),
{
    reveal(complaints);
    let f = |p: Seq<char>| mode_complaint(p);
    if pieces.len() == 0 {
        reveal_with_fuel(Seq::filter, 1);
        assert(mode_messages(unknown_modes(pieces)) =~= Seq::<Seq<char>>::empty());
    } else {
        let m = trimmed(pieces.last());
        lemma_mode_problems_complaints(pieces.drop_last());
        let head = mode_problems(pieces.drop_last());
        let tail = when(!known_mode(m), mode_message(m));
        Seq::filter_distributes_over_add(head, tail, f);
        lemma_mode_message_complains(m);
        reveal_with_fuel(Seq::filter, 2);
        if !known_mode(m) {
            assert(tail.drop_last() =~= Seq::<Seq<char>>::empty());
        }
        assert(tail.filter(f) == tail);
        assert(mode_messages(unknown_modes(pieces)) =~= mode_messages(
            unknown_modes(pieces.drop_last()),
        ) + tail);
    }
}


proof fn lemma_complaints_add(a: Seq<Seq<char>>, b: Seq<Seq<char>>)
    ensures
        complaints(a + b) == complaints(a) + complaints(b),
{
    reveal(complaints);
    Seq::filter_distributes_over_add(a, b, |p: Seq<char>| mode_complaint(p));
}

proof fn lemma_mqtt_no_complaints(m: Mqtt, password_env_set: bool)
    ensures
        complaints(mqtt_problems(m, password_env_set)) == Seq::<Seq<char>>::empty(),
{
    reveal_strlit("popup.stream_mode contains unknown mode \"");
    reveal_strlit("mqtt.host is empty");
    reveal_strlit("mqtt.port must be 1-65535");
    reveal_strlit("mqtt.password and mqtt.password_env are both set - pick one");
    reveal_strlit("mqtt.password_env points at environment variable `");
    reveal_strlit("mqtt.topic_prefix is empty (the Frigate default is \"frigate\")");
    let w1 = when(blank(m.host@), "mqtt.host is empty"@);
    let w2 = when(m.port == 0, "mqtt.port must be 1-65535"@);
    let w3 = when(
        m.password is Some && m.password_env is Some,
        "mqtt.password and mqtt.password_env are both set - pick one"@,
    );
    let env = "mqtt.password_env points at environment variable `"@ + m.password_env->0@
        + "`, which is not set"@;
    let w4 = when(m.password_env is Some && !password_env_set, env);
    let w5 = when(
        m.topic_prefix@.len() == 0,
        "mqtt.topic_prefix is empty (the Frigate default is \"frigate\")"@,
    );
    lemma_when_dropped(blank(m.host@), "mqtt.host is empty"@, 0);
    lemma_when_dropped(m.port == 0, "mqtt.port must be 1-65535"@, 0);
    lemma_when_dropped(
        m.password is Some && m.password_env is Some,
        "mqtt.password and mqtt.password_env are both set - pick one"@,
        0,
    );
    lemma_when_dropped(m.password_env is Some && !password_env_set, env, 0);
    lemma_when_dropped(
        m.topic_prefix@.len() == 0,
        "mqtt.topic_prefix is empty (the Frigate default is \"frigate\")"@,
        0,
    );
    lemma_complaints_add(w1, w2);
    lemma_complaints_add(w1 + w2, w3);
    lemma_complaints_add(w1 + w2 + w3, w4);
    lemma_complaints_add(w1 + w2 + w3 + w4, w5);
    assert(complaints(mqtt_problems(m, password_env_set)) =~= Seq::<Seq<char>>::empty());
}

proof fn lemma_url_no_complaints(field: Seq<char>, url: Seq<char>)
    requires
        field.len() > 0,
        field[0] == 'f',
    ensures
        complaints(url_problems(field, url)) == Seq::<Seq<char>>::empty(),
{
    reveal_strlit("popup.stream_mode contains unknown mode \"");
    lemma_when_dropped(
        !has_prefix(url, "http://"@) && !has_prefix(url, "https://"@),
        field + " = \""@ + url + "\" must start with http:// or https://"@,
        0,
    );
}

proof fn lemma_timing_no_complaints(p: Popup)
    ensures
        complaints(timing_problems(p)) == Seq::<Seq<char>>::empty(),
{
    reveal_strlit("popup.stream_mode contains unknown mode \"");
    reveal_strlit("popup.width and popup.height must both be greater than 0");
    reveal_strlit("popup.max_popups must be at least 1");
    reveal_strlit("popup.watchdog_seconds must be greater than 0");
    reveal_strlit("popup.max_display_seconds must be greater than 0");
    reveal_strlit("popup.min_display_seconds (");
    reveal_strlit("popup.linger_seconds (");
    let w1 = when(p.width == 0 || p.height == 0, "popup.width and popup.height must both be greater than 0"@);
    let w2 = when(p.max_popups == 0, "popup.max_popups must be at least 1"@);
    let w3 = when(p.watchdog_seconds == 0, "popup.watchdog_seconds must be greater than 0"@);
    let w4 = when(p.max_display_seconds == 0, "popup.max_display_seconds must be greater than 0"@);
    let m5 = "popup.min_display_seconds ("@ + decimal(p.min_display_seconds as nat)
        + ") cannot exceed popup.max_display_seconds ("@ + decimal(p.max_display_seconds as nat)
        + ")"@;
    let m6 = "popup.linger_seconds ("@ + decimal(p.linger_seconds as nat)
        + ") cannot exceed popup.max_display_seconds ("@ + decimal(p.max_display_seconds as nat)
        + "), so the linger would always be cut short"@;
    let w5 = when(p.min_display_seconds > p.max_display_seconds, m5);
    let w6 = when(p.linger_seconds > p.max_display_seconds, m6);
    lemma_when_dropped(p.width == 0 || p.height == 0, "popup.width and popup.height must both be greater than 0"@, 6);
    lemma_when_dropped(p.max_popups == 0, "popup.max_popups must be at least 1"@, 6);
    lemma_when_dropped(p.watchdog_seconds == 0, "popup.watchdog_seconds must be greater than 0"@, 6);
    lemma_when_dropped(p.max_display_seconds == 0, "popup.max_display_seconds must be greater than 0"@, 6);
    lemma_when_dropped(p.min_display_seconds > p.max_display_seconds, m5, 6);
    lemma_when_dropped(p.linger_seconds > p.max_display_seconds, m6, 6);
    lemma_complaints_add(w1, w2);
    lemma_complaints_add(w1 + w2, w3);
    lemma_complaints_add(w1 + w2 + w3, w4);
    lemma_complaints_add(w1 + w2 + w3 + w4, w5);
    lemma_complaints_add(w1 + w2 + w3 + w4 + w5, w6);
    assert(complaints(timing_problems(p)) =~= Seq::<Seq<char>>::empty());
}

proof fn lemma_choice_complaints(p: Popup)
    ensures
        complaints(choice_problems(p)) == mode_messages(unknown_modes(split_on(p.stream_mode@, ','))),
{
    reveal_strlit("popup.stream_mode contains unknown mode \"");
    reveal_strlit("popup.monitor = \"");
    reveal_strlit("popup.page = \"");
    reveal_strlit("popup.video_fit = \"");
    let w1 = match p.monitor {
        MonitorSelect::Named(name) => when(
            name@ != "primary"@ && name@ != "cursor"@,
            "popup.monitor = \""@ + name@
                + "\" is not recognised - use \"primary\", \"cursor\", or a 0-based monitor index"@,
        ),
        MonitorSelect::Index(_) => Seq::<Seq<char>>::empty(),
    };
    match p.monitor {
        MonitorSelect::Named(name) => {
            lemma_when_dropped(
                name@ != "primary"@ && name@ != "cursor"@,
                "popup.monitor = \""@ + name@
                    + "\" is not recognised - use \"primary\", \"cursor\", or a 0-based monitor index"@,
                6,
            );
        },
        MonitorSelect::Index(_) => {
            reveal_with_fuel(Seq::filter, 1);
        },
    }
    let w2 = mode_problems(split_on(p.stream_mode@, ','));
    let w3 = when(
        p.page@ != "local"@ && p.page@ != "go2rtc"@,
        "popup.page = \""@ + p.page@ + "\" is not recognised - use local, go2rtc"@,
    );
    let w4 = when(
        p.video_fit@ != "cover"@ && p.video_fit@ != "contain"@ && p.video_fit@ != "fill"@,
        "popup.video_fit = \""@ + p.video_fit@ + "\" is not recognised - use cover, contain, fill"@,
    );
    lemma_mode_problems_complaints(split_on(p.stream_mode@, ','));
    lemma_when_dropped(
        p.page@ != "local"@ && p.page@ != "go2rtc"@,
        "popup.page = \""@ + p.page@ + "\" is not recognised - use local, go2rtc"@,
        6,
    );
    lemma_when_dropped(
        p.video_fit@ != "cover"@ && p.video_fit@ != "contain"@ && p.video_fit@ != "fill"@,
        "popup.video_fit = \""@ + p.video_fit@ + "\" is not recognised - use cover, contain, fill"@,
        6,
    );
    lemma_complaints_add(w1, w2);
    lemma_complaints_add(w1 + w2, w3);
    lemma_complaints_add(w1 + w2 + w3, w4);
    assert(complaints(choice_problems(p)) =~= mode_messages(
        unknown_modes(split_on(p.stream_mode@, ',')),
    ));
}

/// A problem about camera `i` is no stream-mode complaint.
proof fn lemma_camera_message_dropped(cond: bool, i: nat, tail: Seq<char>)
    requires
        tail.len() > 0,
    ensures
        complaints(when(cond, "cameras["@ + decimal(i) + "]"@ + tail)) == Seq::<Seq<char>>::empty(),
{
    reveal_strlit("popup.stream_mode contains unknown mode \"");
    reveal_strlit("cameras[");
    let msg = "cameras["@ + decimal(i) + "]"@ + tail;
    assert(msg[0] == 'c');
    lemma_when_dropped(cond, msg, 0);
}

proof fn lemma_camera_no_complaints(cams: Seq<Camera>, i: int)
    requires
        0 <= i,
    ensures
        complaints(camera_problems(cams, i)) == Seq::<Seq<char>>::empty(),
{
    reveal_strlit(".name is empty");
    reveal_strlit(".name = \"");
    reveal_strlit(".stream is empty (the go2rtc stream name)");
    reveal_strlit(".labels is an empty list - remove it to inherit detection.labels");
    let c = cams[i];
    let at = "cameras["@ + decimal(i as nat) + "]"@;
    let twice = ".name = \""@ + c.name@ + "\" is defined twice"@;
    let dup = exists|j: int| 0 <= j < i && #[trigger] cams[j].name@ == c.name@;
    let w1 = if blank(c.name@) {
        seq![at + ".name is empty"@]
    } else {
        when(dup, at + ".name = \""@ + c.name@ + "\" is defined twice"@)
    };
    let w2 = when(blank(c.stream@), at + ".stream is empty (the go2rtc stream name)"@);
    let w3 = when(
        c.labels is Some && c.labels->0@.len() == 0,
        at + ".labels is an empty list - remove it to inherit detection.labels"@,
    );
    lemma_camera_message_dropped(true, i as nat, ".name is empty"@);
    assert(when(true, at + ".name is empty"@) == seq![at + ".name is empty"@]);
    lemma_camera_message_dropped(dup, i as nat, twice);
    assert(at + ".name = \""@ + c.name@ + "\" is defined twice"@ =~= at + twice);
    lemma_camera_message_dropped(blank(c.stream@), i as nat, ".stream is empty (the go2rtc stream name)"@);
    lemma_camera_message_dropped(
        c.labels is Some && c.labels->0@.len() == 0,
        i as nat,
        ".labels is an empty list - remove it to inherit detection.labels"@,
    );
    lemma_complaints_add(w1, w2);
    lemma_complaints_add(w1 + w2, w3);
    assert(camera_problems(cams, i) == w1 + w2 + w3);
    assert(complaints(w1 + w2 + w3) =~= Seq::<Seq<char>>::empty());
}

proof fn lemma_cameras_no_complaints(cams: Seq<Camera>, n: int)
    ensures
        complaints(cameras_problems(cams, n)) == Seq::<Seq<char>>::empty(),
    decreases n,
{
    reveal(complaints);
    if n <= 0 {
        reveal_with_fuel(Seq::filter, 1);
    } else {
        lemma_cameras_no_complaints(cams, n - 1);
        lemma_camera_no_complaints(cams, n - 1);
        lemma_complaints_add(cameras_problems(cams, n - 1), camera_problems(cams, n - 1));
        assert(complaints(cameras_problems(cams, n)) =~= Seq::<Seq<char>>::empty());
    }
}

/// A problem whose first character is not `p` is no stream-mode complaint.
proof fn lemma_plain_dropped(cond: bool, msg: Seq<char>)
    requires
        msg.len() > 0,
        msg[0] != 'p',
    ensures
        complaints(when(cond, msg)) == Seq::<Seq<char>>::empty(),
{
    reveal_strlit("popup.stream_mode contains unknown mode \"");
    lemma_when_dropped(cond, msg, 0);
}

proof fn lemma_tail_no_complaints(c: Config)
    ensures
        complaints(
            when(
                c.hotkey.enabled && blank(c.hotkey.binding@),
                "hotkey.binding is empty; set a key or use hotkey.enabled = false"@,
            ),
        ) == Seq::<Seq<char>>::empty(),
        complaints(
            when(
                c.detection.labels@.len() == 0,
                "detection.labels is empty, so nothing would ever trigger"@,
            ),
        ) == Seq::<Seq<char>>::empty(),
        complaints(when(c.cameras@.len() == 0, "no [[cameras]] entries defined"@))
            == Seq::<Seq<char>>::empty(),
        complaints(
            when(
                c.cameras@.len() > 0 && !(exists|i: int|
                    0 <= i < c.cameras@.len() && #[trigger] c.cameras@[i].enabled),
                "every camera has enabled = false, so nothing would ever trigger"@,
            ),
        ) == Seq::<Seq<char>>::empty(),
{
    reveal_strlit("hotkey.binding is empty; set a key or use hotkey.enabled = false");
    reveal_strlit("detection.labels is empty, so nothing would ever trigger");
    reveal_strlit("no [[cameras]] entries defined");
    reveal_strlit("every camera has enabled = false, so nothing would ever trigger");
    lemma_plain_dropped(
        c.hotkey.enabled && blank(c.hotkey.binding@),
        "hotkey.binding is empty; set a key or use hotkey.enabled = false"@,
    );
    lemma_plain_dropped(
        c.detection.labels@.len() == 0,
        "detection.labels is empty, so nothing would ever trigger"@,
    );
    lemma_plain_dropped(c.cameras@.len() == 0, "no [[cameras]] entries defined"@);
    lemma_plain_dropped(
        c.cameras@.len() > 0 && !(exists|i: int|
            0 <= i < c.cameras@.len() && #[trigger] c.cameras@[i].enabled),
        "every camera has enabled = false, so nothing would ever trigger"@,
    );
}

/// When only the fifth of ten parts holds complaints, the whole holds just those.
proof fn lemma_one_part_complains(
    w1: Seq<Seq<char>>,
    w2: Seq<Seq<char>>,
    w3: Seq<Seq<char>>,
    w4: Seq<Seq<char>>,
    w5: Seq<Seq<char>>,
    w6: Seq<Seq<char>>,
    w7: Seq<Seq<char>>,
    w8: Seq<Seq<char>>,
    w9: Seq<Seq<char>>,
    w10: Seq<Seq<char>>,
)
    requires
        complaints(w1) == Seq::<Seq<char>>::empty(),
        complaints(w2) == Seq::<Seq<char>>::empty(),
        complaints(w3) == Seq::<Seq<char>>::empty(),
        complaints(w4) == Seq::<Seq<char>>::empty(),
        complaints(w6) == Seq::<Seq<char>>::empty(),
        complaints(w7) == Seq::<Seq<char>>::empty(),
        complaints(w8) == Seq::<Seq<char>>::empty(),
        complaints(w9) == Seq::<Seq<char>>::empty(),
        complaints(w10) == Seq::<Seq<char>>::empty(),
    ensures
        complaints(w1 + w2 + w3 + w4 + w5 + w6 + w7 + w8 + w9 + w10) == complaints(w5),
{
    let e = Seq::<Seq<char>>::empty();
    let m = complaints(w5);
    let a2 = w1 + w2;
    lemma_complaints_add(w1, w2);
    assert(complaints(a2) =~= e);
    let a3 = a2 + w3;
    lemma_complaints_add(a2, w3);
    assert(complaints(a3) =~= e);
    let a4 = a3 + w4;
    lemma_complaints_add(a3, w4);
    assert(complaints(a4) =~= e);
    let a5 = a4 + w5;
    lemma_complaints_add(a4, w5);
    assert(complaints(a5) =~= m);
    let a6 = a5 + w6;
    lemma_complaints_add(a5, w6);
    assert(complaints(a6) =~= m);
    let a7 = a6 + w7;
    lemma_complaints_add(a6, w7);
    assert(complaints(a7) =~= m);
    let a8 = a7 + w8;
    lemma_complaints_add(a7, w8);
    assert(complaints(a8) =~= m);
    let a9 = a8 + w9;
    lemma_complaints_add(a8, w9);
    assert(complaints(a9) =~= m);
    lemma_complaints_add(a9, w10);
    assert(complaints(a9 + w10) =~= m);
}

/// The complaints about unknown stream modes are exactly one per comma-separated piece of
/// `popup.stream_mode` that, trimmed, is not a go2rtc mode, in the order the pieces
/// appear; no other problem reads like one.
#[verifier::spinoff_prover]
pub proof fn each_unknown_stream_mode_is_reported_once(c: Config, password_env_set: bool)
    ensures
        complaints(problems_spec(c, password_env_set)) == mode_messages(
            unknown_modes(split_on(c.popup.stream_mode@, ',')),
        ),
{
    let cams = c.cameras@;
    let e = Seq::<Seq<char>>::empty();
    let m = mode_messages(unknown_modes(split_on(c.popup.stream_mode@, ',')));
    let w1 = mqtt_problems(c.mqtt, password_env_set);
    let w2 = url_problems("frigate.ui_url"@, c.frigate.ui_url@);
    let w3 = url_problems("frigate.go2rtc_url"@, c.frigate.go2rtc_url@);
    let w4 = timing_problems(c.popup);
    let w5 = choice_problems(c.popup);
    let w6 = when(
        c.hotkey.enabled && blank(c.hotkey.binding@),
        "hotkey.binding is empty; set a key or use hotkey.enabled = false"@,
    );
    let w7 = when(
        c.detection.labels@.len() == 0,
        "detection.labels is empty, so nothing would ever trigger"@,
    );
    let w8 = when(cams.len() == 0, "no [[cameras]] entries defined"@);
    let w9 = cameras_problems(cams, cams.len() as int);
    let w10 = when(
        cams.len() > 0 && !(exists|i: int| 0 <= i < cams.len() && #[trigger] cams[i].enabled),
        "every camera has enabled = false, so nothing would ever trigger"@,
    );
    assert(complaints(w1) == e) by {
        lemma_mqtt_no_complaints(c.mqtt, password_env_set);
    }
    assert(complaints(w2) == e) by {
        reveal_strlit("frigate.ui_url");
        lemma_url_no_complaints("frigate.ui_url"@, c.frigate.ui_url@);
    }
    assert(complaints(w3) == e) by {
        reveal_strlit("frigate.go2rtc_url");
        lemma_url_no_complaints("frigate.go2rtc_url"@, c.frigate.go2rtc_url@);
    }
    assert(complaints(w4) == e) by {
        lemma_timing_no_complaints(c.popup);
    }
    assert(complaints(w5) == m) by {
        lemma_choice_complaints(c.popup);
    }
    assert(complaints(w6) == e && complaints(w7) == e && complaints(w8) == e && complaints(w10)
        == e) by {
        lemma_tail_no_complaints(c);
    }
    assert(complaints(w9) == e) by {
        lemma_cameras_no_complaints(cams, cams.len() as int);
    }
    lemma_one_part_complains(w1, w2, w3, w4, w5, w6, w7, w8, w9, w10);
    assert(problems_spec(c, password_env_set) == w1 + w2 + w3 + w4 + w5 + w6 + w7 + w8 + w9 + w10);
}


// ---------------------------------------------------------------------------
// The all-disabled problem
// ---------------------------------------------------------------------------

/// The problem reported when no camera is enabled.
pub open spec fn all_disabled_message() -> Seq<char> {
    "every camera has enabled = false, so nothing would ever trigger"@
}

/// The problems that begin with `ch`, in order.
#[verifier::opaque]
pub open spec fn led_by(problems: Seq<Seq<char>>, ch: char) -> Seq<Seq<char>> {
    problems.filter(|p: Seq<char>| p.len() > 0 && p[0] == ch)
}

proof fn lemma_led_add(a: Seq<Seq<char>>, b: Seq<Seq<char>>, ch: char)
    ensures
        led_by(a + b, ch) == led_by(a, ch) + led_by(b, ch),
{
    reveal(led_by);
    Seq::filter_distributes_over_add(a, b, |p: Seq<char>| p.len() > 0 && p[0] == ch);
}

/// Every problem kept by `led_by` is one of the problems.
proof fn lemma_led_members(problems: Seq<Seq<char>>, ch: char, m: Seq<char>)
    requires
        led_by(problems, ch).contains(m),
    ensures
        problems.contains(m),
    decreases problems.len(),
{
    reveal(led_by);
    reveal_with_fuel(Seq::filter, 1);
    if problems.len() > 0 {
        let init = problems.drop_last();
        let last = problems.last();
        if last.len() > 0 && last[0] == ch && m == last {
            assert(problems[problems.len() - 1] == m);
        } else {
            assert(led_by(init, ch).contains(m)) by {
                let f = led_by(problems, ch);
                let g = led_by(init, ch);
                let k = choose|k: int| 0 <= k < f.len() && f[k] == m;
                if last.len() > 0 && last[0] == ch {
                    assert(f == g.push(last));
                    assert(k < g.len());
                    assert(g[k] == m);
                } else {
                    assert(f == g);
                }
            }
            lemma_led_members(init, ch, m);
            let j = choose|j: int| 0 <= j < init.len() && init[j] == m;
            assert(problems[j] == m);
        }
    }
}

/// Every problem that begins with `ch` is kept by `led_by`.
proof fn lemma_led_keeps(problems: Seq<Seq<char>>, ch: char, k: int)
    requires
        0 <= k < problems.len(),
        problems[k].len() > 0,
        problems[k][0] == ch,
    ensures
        led_by(problems, ch).contains(problems[k]),
{
    reveal(led_by);
    problems.lemma_filter_contains(|p: Seq<char>| p.len() > 0 && p[0] == ch, k);
}

/// A conditional problem that begins with another character is dropped.
proof fn lemma_when_not_led(cond: bool, msg: Seq<char>, ch: char)
    requires
        msg.len() > 0,
        msg[0] != ch,
    ensures
        led_by(when(cond, msg), ch) == Seq::<Seq<char>>::empty(),
{
    reveal(led_by);
    reveal_with_fuel(Seq::filter, 2);
    if cond {
        assert(when(cond, msg).drop_last() =~= Seq::<Seq<char>>::empty());
    }
}

/// A conditional problem that begins with the character is kept.
proof fn lemma_when_led(cond: bool, msg: Seq<char>, ch: char)
    requires
        msg.len() > 0,
        msg[0] == ch,
    ensures
        led_by(when(cond, msg), ch) == when(cond, msg),
{
    reveal(led_by);
    reveal_with_fuel(Seq::filter, 2);
    if cond {
        assert(when(cond, msg).drop_last() =~= Seq::<Seq<char>>::empty());
    }
}

proof fn lemma_mqtt_not_led(m: Mqtt, password_env_set: bool)
    ensures
        led_by(mqtt_problems(m, password_env_set), 'e') == Seq::<Seq<char>>::empty(),
{
    reveal_strlit("mqtt.host is empty");
    reveal_strlit("mqtt.port must be 1-65535");
    reveal_strlit("mqtt.password and mqtt.password_env are both set - pick one");
    reveal_strlit("mqtt.password_env points at environment variable `");
    reveal_strlit("mqtt.topic_prefix is empty (the Frigate default is \"frigate\")");
    let w1 = when(blank(m.host@), "mqtt.host is empty"@);
    let w2 = when(m.port == 0, "mqtt.port must be 1-65535"@);
    let w3 = when(
        m.password is Some && m.password_env is Some,
        "mqtt.password and mqtt.password_env are both set - pick one"@,
    );
    let env = "mqtt.password_env points at environment variable `"@ + m.password_env->0@
        + "`, which is not set"@;
    let w4 = when(m.password_env is Some && !password_env_set, env);
    let w5 = when(
        m.topic_prefix@.len() == 0,
        "mqtt.topic_prefix is empty (the Frigate default is \"frigate\")"@,
    );
    lemma_when_not_led(blank(m.host@), "mqtt.host is empty"@, 'e');
    lemma_when_not_led(m.port == 0, "mqtt.port must be 1-65535"@, 'e');
    lemma_when_not_led(
        m.password is Some && m.password_env is Some,
        "mqtt.password and mqtt.password_env are both set - pick one"@,
        'e',
    );
    lemma_when_not_led(m.password_env is Some && !password_env_set, env, 'e');
    lemma_when_not_led(
        m.topic_prefix@.len() == 0,
        "mqtt.topic_prefix is empty (the Frigate default is \"frigate\")"@,
        'e',
    );
    lemma_led_add(w1, w2, 'e');
    lemma_led_add(w1 + w2, w3, 'e');
    lemma_led_add(w1 + w2 + w3, w4, 'e');
    lemma_led_add(w1 + w2 + w3 + w4, w5, 'e');
    assert(led_by(mqtt_problems(m, password_env_set), 'e') =~= Seq::<Seq<char>>::empty());
}

proof fn lemma_url_not_led(field: Seq<char>, url: Seq<char>)
    requires
        field.len() > 0,
        field[0] == 'f',
    ensures
        led_by(url_problems(field, url), 'e') == Seq::<Seq<char>>::empty(),
{
    lemma_when_not_led(
        !has_prefix(url, "http://"@) && !has_prefix(url, "https://"@),
        field + " = \""@ + url + "\" must start with http:// or https://"@,
        'e',
    );
}

proof fn lemma_timing_not_led(p: Popup)
    ensures
        led_by(timing_problems(p), 'e') == Seq::<Seq<char>>::empty(),
{
    reveal_strlit("popup.width and popup.height must both be greater than 0");
    reveal_strlit("popup.max_popups must be at least 1");
    reveal_strlit("popup.watchdog_seconds must be greater than 0");
    reveal_strlit("popup.max_display_seconds must be greater than 0");
    reveal_strlit("popup.min_display_seconds (");
    reveal_strlit("popup.linger_seconds (");
    let w1 = when(p.width == 0 || p.height == 0, "popup.width and popup.height must both be greater than 0"@);
    let w2 = when(p.max_popups == 0, "popup.max_popups must be at least 1"@);
    let w3 = when(p.watchdog_seconds == 0, "popup.watchdog_seconds must be greater than 0"@);
    let w4 = when(p.max_display_seconds == 0, "popup.max_display_seconds must be greater than 0"@);
    let m5 = "popup.min_display_seconds ("@ + decimal(p.min_display_seconds as nat)
        + ") cannot exceed popup.max_display_seconds ("@ + decimal(p.max_display_seconds as nat)
        + ")"@;
    let m6 = "popup.linger_seconds ("@ + decimal(p.linger_seconds as nat)
        + ") cannot exceed popup.max_display_seconds ("@ + decimal(p.max_display_seconds as nat)
        + "), so the linger would always be cut short"@;
    let w5 = when(p.min_display_seconds > p.max_display_seconds, m5);
    let w6 = when(p.linger_seconds > p.max_display_seconds, m6);
    lemma_when_not_led(p.width == 0 || p.height == 0, "popup.width and popup.height must both be greater than 0"@, 'e');
    lemma_when_not_led(p.max_popups == 0, "popup.max_popups must be at least 1"@, 'e');
    lemma_when_not_led(p.watchdog_seconds == 0, "popup.watchdog_seconds must be greater than 0"@, 'e');
    lemma_when_not_led(p.max_display_seconds == 0, "popup.max_display_seconds must be greater than 0"@, 'e');
    lemma_when_not_led(p.min_display_seconds > p.max_display_seconds, m5, 'e');
    lemma_when_not_led(p.linger_seconds > p.max_display_seconds, m6, 'e');
    lemma_led_add(w1, w2, 'e');
    lemma_led_add(w1 + w2, w3, 'e');
    lemma_led_add(w1 + w2 + w3, w4, 'e');
    lemma_led_add(w1 + w2 + w3 + w4, w5, 'e');
    lemma_led_add(w1 + w2 + w3 + w4 + w5, w6, 'e');
    assert(led_by(timing_problems(p), 'e') =~= Seq::<Seq<char>>::empty());
}

proof fn lemma_modes_not_led(pieces: Seq<Seq<char>>)
    ensures
        led_by(mode_problems(pieces), 'e') == Seq::<Seq<char>>::empty(),
    decreases pieces.len(),
{
    reveal_strlit("popup.stream_mode contains unknown mode \"");
    if pieces.len() == 0 {
        reveal(led_by);
        reveal_with_fuel(Seq::filter, 1);
    } else {
        let m = trimmed(pieces.last());
        lemma_modes_not_led(pieces.drop_last());
        let msg = "popup.stream_mode contains unknown mode \""@ + m
            + "\" - valid modes are webrtc, mse, hls, mjpeg, mp4"@;
        lemma_when_not_led(!known_mode(m), msg, 'e');
        lemma_led_add(mode_problems(pieces.drop_last()), when(!known_mode(m), msg), 'e');
        assert(led_by(mode_problems(pieces), 'e') =~= Seq::<Seq<char>>::empty());
    }
}

proof fn lemma_choice_not_led(p: Popup)
    ensures
        led_by(choice_problems(p), 'e') == Seq::<Seq<char>>::empty(),
{
    reveal_strlit("popup.monitor = \"");
    reveal_strlit("popup.page = \"");
    reveal_strlit("popup.video_fit = \"");
    let w1 = match p.monitor {
        MonitorSelect::Named(name) => when(
            name@ != "primary"@ && name@ != "cursor"@,
            "popup.monitor = \""@ + name@
                + "\" is not recognised - use \"primary\", \"cursor\", or a 0-based monitor index"@,
        ),
        MonitorSelect::Index(_) => Seq::<Seq<char>>::empty(),
    };
    match p.monitor {
        MonitorSelect::Named(name) => {
            lemma_when_not_led(
                name@ != "primary"@ && name@ != "cursor"@,
                "popup.monitor = \""@ + name@
                    + "\" is not recognised - use \"primary\", \"cursor\", or a 0-based monitor index"@,
                'e',
            );
        },
        MonitorSelect::Index(_) => {
            reveal(led_by);
            reveal_with_fuel(Seq::filter, 1);
        },
    }
    let w2 = mode_problems(split_on(p.stream_mode@, ','));
    let w3 = when(
        p.page@ != "local"@ && p.page@ != "go2rtc"@,
        "popup.page = \""@ + p.page@ + "\" is not recognised - use local, go2rtc"@,
    );
    let w4 = when(
        p.video_fit@ != "cover"@ && p.video_fit@ != "contain"@ && p.video_fit@ != "fill"@,
        "popup.video_fit = \""@ + p.video_fit@ + "\" is not recognised - use cover, contain, fill"@,
    );
    lemma_modes_not_led(split_on(p.stream_mode@, ','));
    lemma_when_not_led(
        p.page@ != "local"@ && p.page@ != "go2rtc"@,
        "popup.page = \""@ + p.page@ + "\" is not recognised - use local, go2rtc"@,
        'e',
    );
    lemma_when_not_led(
        p.video_fit@ != "cover"@ && p.video_fit@ != "contain"@ && p.video_fit@ != "fill"@,
        "popup.video_fit = \""@ + p.video_fit@ + "\" is not recognised - use cover, contain, fill"@,
        'e',
    );
    lemma_led_add(w1, w2, 'e');
    lemma_led_add(w1 + w2, w3, 'e');
    lemma_led_add(w1 + w2 + w3, w4, 'e');
    assert(led_by(choice_problems(p), 'e') =~= Seq::<Seq<char>>::empty());
}

proof fn lemma_camera_message_not_led(cond: bool, i: nat, tail: Seq<char>)
    ensures
        led_by(when(cond, "cameras["@ + decimal(i) + "]"@ + tail), 'e') == Seq::<Seq<char>>::empty(),
{
    reveal_strlit("cameras[");
    let msg = "cameras["@ + decimal(i) + "]"@ + tail;
    assert(msg[0] == 'c');
    lemma_when_not_led(cond, msg, 'e');
}

proof fn lemma_camera_not_led(cams: Seq<Camera>, i: int)
    requires
        0 <= i,
    ensures
        led_by(camera_problems(cams, i), 'e') == Seq::<Seq<char>>::empty(),
{
    let c = cams[i];
    let at = "cameras["@ + decimal(i as nat) + "]"@;
    let twice = ".name = \""@ + c.name@ + "\" is defined twice"@;
    let dup = exists|j: int| 0 <= j < i && #[trigger] cams[j].name@ == c.name@;
    let w1 = if blank(c.name@) {
        seq![at + ".name is empty"@]
    } else {
        when(dup, at + ".name = \""@ + c.name@ + "\" is defined twice"@)
    };
    let w2 = when(blank(c.stream@), at + ".stream is empty (the go2rtc stream name)"@);
    let w3 = when(
        c.labels is Some && c.labels->0@.len() == 0,
        at + ".labels is an empty list - remove it to inherit detection.labels"@,
    );
    lemma_camera_message_not_led(true, i as nat, ".name is empty"@);
    assert(when(true, at + ".name is empty"@) == seq![at + ".name is empty"@]);
    lemma_camera_message_not_led(dup, i as nat, twice);
    assert(at + ".name = \""@ + c.name@ + "\" is defined twice"@ =~= at + twice);
    lemma_camera_message_not_led(blank(c.stream@), i as nat, ".stream is empty (the go2rtc stream name)"@);
    lemma_camera_message_not_led(
        c.labels is Some && c.labels->0@.len() == 0,
        i as nat,
        ".labels is an empty list - remove it to inherit detection.labels"@,
    );
    lemma_led_add(w1, w2, 'e');
    lemma_led_add(w1 + w2, w3, 'e');
    assert(camera_problems(cams, i) == w1 + w2 + w3);
    assert(led_by(w1 + w2 + w3, 'e') =~= Seq::<Seq<char>>::empty());
}

proof fn lemma_cameras_not_led(cams: Seq<Camera>, n: int)
    ensures
        led_by(cameras_problems(cams, n), 'e') == Seq::<Seq<char>>::empty(),
    decreases n,
{
    if n <= 0 {
        reveal(led_by);
        reveal_with_fuel(Seq::filter, 1);
    } else {
        lemma_cameras_not_led(cams, n - 1);
        lemma_camera_not_led(cams, n - 1);
        lemma_led_add(cameras_problems(cams, n - 1), camera_problems(cams, n - 1), 'e');
        assert(led_by(cameras_problems(cams, n), 'e') =~= Seq::<Seq<char>>::empty());
    }
}

/// When only the last of ten parts holds problems beginning with `ch`, the whole holds
/// just those.
proof fn lemma_only_last_led(
    w1: Seq<Seq<char>>,
    w2: Seq<Seq<char>>,
    w3: Seq<Seq<char>>,
    w4: Seq<Seq<char>>,
    w5: Seq<Seq<char>>,
    w6: Seq<Seq<char>>,
    w7: Seq<Seq<char>>,
    w8: Seq<Seq<char>>,
    w9: Seq<Seq<char>>,
    w10: Seq<Seq<char>>,
    ch: char,
)
    requires
        led_by(w1, ch) == Seq::<Seq<char>>::empty(),
        led_by(w2, ch) == Seq::<Seq<char>>::empty(),
        led_by(w3, ch) == Seq::<Seq<char>>::empty(),
        led_by(w4, ch) == Seq::<Seq<char>>::empty(),
        led_by(w5, ch) == Seq::<Seq<char>>::empty(),
        led_by(w6, ch) == Seq::<Seq<char>>::empty(),
        led_by(w7, ch) == Seq::<Seq<char>>::empty(),
        led_by(w8, ch) == Seq::<Seq<char>>::empty(),
        led_by(w9, ch) == Seq::<Seq<char>>::empty(),
    ensures
        led_by(w1 + w2 + w3 + w4 + w5 + w6 + w7 + w8 + w9 + w10, ch) == led_by(w10, ch),
{
    let e = Seq::<Seq<char>>::empty();
    let a2 = w1 + w2;
    lemma_led_add(w1, w2, ch);
    assert(led_by(a2, ch) =~= e);
    let a3 = a2 + w3;
    lemma_led_add(a2, w3, ch);
    assert(led_by(a3, ch) =~= e);
    let a4 = a3 + w4;
    lemma_led_add(a3, w4, ch);
    assert(led_by(a4, ch) =~= e);
    let a5 = a4 + w5;
    lemma_led_add(a4, w5, ch);
    assert(led_by(a5, ch) =~= e);
    let a6 = a5 + w6;
    lemma_led_add(a5, w6, ch);
    assert(led_by(a6, ch) =~= e);
    let a7 = a6 + w7;
    lemma_led_add(a6, w7, ch);
    assert(led_by(a7, ch) =~= e);
    let a8 = a7 + w8;
    lemma_led_add(a7, w8, ch);
    assert(led_by(a8, ch) =~= e);
    let a9 = a8 + w9;
    lemma_led_add(a8, w9, ch);
    assert(led_by(a9, ch) =~= e);
    lemma_led_add(a9, w10, ch);
    assert(led_by(a9 + w10, ch) =~= led_by(w10, ch));
}

/// The problems of `c` that begin with an `e` are the all-disabled problem, exactly when
/// the config has cameras and none of them is enabled.
proof fn lemma_problems_led_by_e(c: Config, password_env_set: bool)
    ensures
        led_by(problems_spec(c, password_env_set), 'e') == (if c.cameras@.len() > 0 && (forall|i: int|
            0 <= i < c.cameras@.len() ==> !#[trigger] c.cameras@[i].enabled) {
            seq![all_disabled_message()]
        } else {
            Seq::<Seq<char>>::empty()
        }),
{
    let cams = c.cameras@;
    let e = Seq::<Seq<char>>::empty();
    let w1 = mqtt_problems(c.mqtt, password_env_set);
    let w2 = url_problems("frigate.ui_url"@, c.frigate.ui_url@);
    let w3 = url_problems("frigate.go2rtc_url"@, c.frigate.go2rtc_url@);
    let w4 = timing_problems(c.popup);
    let w5 = choice_problems(c.popup);
    let w6 = when(
        c.hotkey.enabled && blank(c.hotkey.binding@),
        "hotkey.binding is empty; set a key or use hotkey.enabled = false"@,
    );
    let w7 = when(
        c.detection.labels@.len() == 0,
        "detection.labels is empty, so nothing would ever trigger"@,
    );
    let w8 = when(cams.len() == 0, "no [[cameras]] entries defined"@);
    let w9 = cameras_problems(cams, cams.len() as int);
    let cond = cams.len() > 0 && !(exists|i: int| 0 <= i < cams.len() && #[trigger] cams[i].enabled);
    let w10 = when(cond, "every camera has enabled = false, so nothing would ever trigger"@);
    assert(led_by(w1, 'e') == e) by {
        lemma_mqtt_not_led(c.mqtt, password_env_set);
    }
    assert(led_by(w2, 'e') == e) by {
        reveal_strlit("frigate.ui_url");
        lemma_url_not_led("frigate.ui_url"@, c.frigate.ui_url@);
    }
    assert(led_by(w3, 'e') == e) by {
        reveal_strlit("frigate.go2rtc_url");
        lemma_url_not_led("frigate.go2rtc_url"@, c.frigate.go2rtc_url@);
    }
    assert(led_by(w4, 'e') == e) by {
        lemma_timing_not_led(c.popup);
    }
    assert(led_by(w5, 'e') == e) by {
        lemma_choice_not_led(c.popup);
    }
    assert(led_by(w6, 'e') == e) by {
        reveal_strlit("hotkey.binding is empty; set a key or use hotkey.enabled = false");
        lemma_when_not_led(
            c.hotkey.enabled && blank(c.hotkey.binding@),
            "hotkey.binding is empty; set a key or use hotkey.enabled = false"@,
            'e',
        );
    }
    assert(led_by(w7, 'e') == e) by {
        reveal_strlit("detection.labels is empty, so nothing would ever trigger");
        lemma_when_not_led(
            c.detection.labels@.len() == 0,
            "detection.labels is empty, so nothing would ever trigger"@,
            'e',
        );
    }
    assert(led_by(w8, 'e') == e) by {
        reveal_strlit("no [[cameras]] entries defined");
        lemma_when_not_led(cams.len() == 0, "no [[cameras]] entries defined"@, 'e');
    }
    assert(led_by(w9, 'e') == e) by {
        lemma_cameras_not_led(cams, cams.len() as int);
    }
    assert(led_by(w10, 'e') == w10) by {
        reveal_strlit("every camera has enabled = false, so nothing would ever trigger");
        lemma_when_led(cond, "every camera has enabled = false, so nothing would ever trigger"@, 'e');
    }
    lemma_only_last_led(w1, w2, w3, w4, w5, w6, w7, w8, w9, w10, 'e');
    assert(problems_spec(c, password_env_set) == w1 + w2 + w3 + w4 + w5 + w6 + w7 + w8 + w9 + w10);
}

/// The problem that every camera is disabled is reported exactly when the config has at
/// least one camera and none of them is enabled: a single enabled camera anywhere in the
/// list rules it out.
pub proof fn all_disabled_is_reported_only_when_no_camera_is_enabled(c: Config, password_env_set: bool)
    ensures
        problems_spec(c, password_env_set).contains(all_disabled_message()) <==> (c.cameras@.len()
            > 0 && forall|i: int| 0 <= i < c.cameras@.len() ==> !#[trigger] c.cameras@[i].enabled),
{
    let ps = problems_spec(c, password_env_set);
    let m = all_disabled_message();
    lemma_problems_led_by_e(c, password_env_set);
    reveal_strlit("every camera has enabled = false, so nothing would ever trigger");
    if ps.contains(m) {
        let k = choose|k: int| 0 <= k < ps.len() && ps[k] == m;
        lemma_led_keeps(ps, 'e', k);
    }
    if c.cameras@.len() > 0 && forall|i: int|
        0 <= i < c.cameras@.len() ==> !#[trigger] c.cameras@[i].enabled {
        assert(led_by(ps, 'e') == seq![m]);
        assert(led_by(ps, 'e')[0] == m);
        assert(led_by(ps, 'e').contains(m));
        lemma_led_members(ps, 'e', m);
    }
}

} // verus!
