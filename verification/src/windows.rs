//! Popup placement, page choice and the scripts injected into popup pages.

use vstd::prelude::*;
use crate::config::{Camera, Config, Corner, MonitorSelect, Popup, labels_for_spec};
use crate::events::watches;
use crate::json::{json_string, json_string_literal};
use crate::text::{cat, owned, str_eq, string_views};

verus! {

/// Why a popup exists. A detection popup is an alert and says what was detected; a live
/// popup is one you asked for yourself, and must not claim anything was detected.
#[derive(Debug, Clone, Copy, PartialEq, Eq)]
pub enum Kind {
    Detection,
    Live,
}

pub open spec fn kind_name(k: Kind) -> Seq<char> {
    match k {
        Kind::Detection => "detection"@,
        Kind::Live => "live"@,
    }
}

impl Kind {
    pub fn as_str(self) -> (r: &'static str)
        ensures
            r@ == kind_name(self),
    {
        match self {
            Kind::Detection => "detection",
            Kind::Live => "live",
        }
    }
}

/// Window labels are derived from the camera name, so a second event for the same
/// camera finds the existing popup instead of stacking a duplicate on top of it.
pub fn label_for(camera: &str) -> (r: String)
    ensures
        r@ == "popup-"@ + camera@,
{
    cat("popup-", camera)
}

/// A monitor's usable area in physical pixels, i.e. excluding the taskbar.
#[derive(Debug, Clone, Copy, PartialEq, Eq)]
pub struct Rect {
    pub x: i32,
    pub y: i32,
    pub w: i32,
    pub h: i32,
}

/// A popup's size, its offsets from the corner and the gap between stacked popups, in
/// physical pixels.
#[derive(Debug, Clone, Copy, PartialEq, Eq)]
pub struct Footprint {
    pub w: i32,
    pub h: i32,
    pub off_x: i32,
    pub off_y: i32,
    pub gap: i32,
}

/// A top-left corner in physical pixels.
#[derive(Debug, Clone, Copy, PartialEq, Eq)]
pub struct Position {
    pub x: i32,
    pub y: i32,
}

pub open spec fn in_i32(v: int) -> bool {
    i32::MIN <= v <= i32::MAX
}

/// How far slot `slot` sits from slot 0.
pub open spec fn stack_offset(f: Footprint, slot: usize) -> int {
    slot as int * (f.h + f.gap)
}

/// Every intermediate value of the placement is an `i32`.
pub open spec fn placement_fits(a: Rect, f: Footprint, slot: usize) -> bool {
    &&& slot <= i32::MAX
    &&& in_i32(f.h + f.gap)
    &&& in_i32(stack_offset(f, slot))
    &&& in_i32(a.x + f.off_x)
    &&& in_i32(a.x + a.w)
    &&& in_i32(a.x + a.w - f.w)
    &&& in_i32(a.x + a.w - f.w - f.off_x)
    &&& in_i32(a.y + f.off_y)
    &&& in_i32(a.y + f.off_y + stack_offset(f, slot))
    &&& in_i32(a.y + a.h)
    &&& in_i32(a.y + a.h - f.h)
    &&& in_i32(a.y + a.h - f.h - f.off_y)
    &&& in_i32(a.y + a.h - f.h - f.off_y - stack_offset(f, slot))
}

/// Where the popup in `slot` goes: hugging the chosen corner of the area, stacked away
/// from it - downward from a top corner, upward from a bottom one.
pub open spec fn placed(a: Rect, f: Footprint, corner: Corner, slot: usize) -> (int, int) {
    let left = a.x + f.off_x;
    let right = a.x + a.w - f.w - f.off_x;
    let top = a.y + f.off_y + stack_offset(f, slot);
    let bottom = a.y + a.h - f.h - f.off_y - stack_offset(f, slot);
    match corner {
        Corner::TopLeft => (left, top),
        Corner::TopRight => (right, top),
        Corner::BottomLeft => (left, bottom),
        Corner::BottomRight => (right, bottom),
    }
}

fn fits_i32(v: i64) -> (r: bool)
    ensures
        r == in_i32(v as int),
{
    i32::MIN as i64 <= v && v <= i32::MAX as i64
}

/// Whether `place` can compute the position of `slot` without leaving the `i32` range.
pub fn placement_ok(area: Rect, f: Footprint, slot: usize) -> (r: bool)
    ensures
        r == placement_fits(area, f, slot),
{
    if slot > i32::MAX as usize {
        return false;
    }
    let (x, y, w, h) = (area.x as i64, area.y as i64, area.w as i64, area.h as i64);
    let (fw, fh, ox, oy, gap) = (f.w as i64, f.h as i64, f.off_x as i64, f.off_y as i64, f.gap as i64);
    let step = fh + gap;
    if !fits_i32(step) {
        return false;
    }
    let s = slot as i64;
    assert(-0x8000_0000 <= step <= 0x7fff_ffff && 0 <= s <= 0x7fff_ffff);
    assert(-0x4000_0000_0000_0000 <= s * step <= 0x4000_0000_0000_0000) by (nonlinear_arith)
        requires
            -0x8000_0000 <= step <= 0x7fff_ffff,
            0 <= s <= 0x7fff_ffff,
    ;
    let stack = s * step;
    assert(stack == stack_offset(f, slot));
    fits_i32(stack) && fits_i32(x + ox) && fits_i32(x + w) && fits_i32(x + w - fw) && fits_i32(
        x + w - fw - ox,
    ) && fits_i32(y + oy) && fits_i32(y + oy + stack) && fits_i32(y + h) && fits_i32(y + h - fh)
        && fits_i32(y + h - fh - oy) && fits_i32(y + h - fh - oy - stack)
}

/// Top-left corner for the popup occupying `slot`, with every size already in physical
/// pixels.
pub fn place(area: Rect, f: Footprint, corner: Corner, slot: usize) -> (r: Position)
    requires
        placement_fits(area, f, slot),
    ensures
        (r.x as int, r.y as int) == placed(area, f, corner, slot),
{
    let slot_i: i32 = slot as i32;
    let step: i32 = f.h + f.gap;
    assert(slot_i as int * step as int == stack_offset(f, slot));
    let stack: i32 = slot_i * step;
    let left = area.x + f.off_x;
    let right = area.x + area.w - f.w - f.off_x;
    let top = area.y + f.off_y + stack;
    let bottom = area.y + area.h - f.h - f.off_y - stack;
    match corner {
        Corner::TopLeft => Position { x: left, y: top },
        Corner::TopRight => Position { x: right, y: top },
        Corner::BottomLeft => Position { x: left, y: bottom },
        Corner::BottomRight => Position { x: right, y: bottom },
    }
}

/// Stacking never moves a popup sideways, and each slot sits one popup height plus the
/// gap further from the corner than the one before it: upward from a bottom corner,
/// downward from a top one.
pub proof fn stacking_moves_away_from_the_corner(a: Rect, f: Footprint, corner: Corner, slot: usize)
    requires
        slot < usize::MAX,
    ensures
        ({
            let p = placed(a, f, corner, slot);
            let q = placed(a, f, corner, (slot + 1) as usize);
            &&& q.0 == p.0
            &&& match corner {
                Corner::TopLeft | Corner::TopRight => q.1 - p.1 == f.h + f.gap,
                Corner::BottomLeft | Corner::BottomRight => p.1 - q.1 == f.h + f.gap,
            }
        }),
{
    assert(stack_offset(f, (slot + 1) as usize) == stack_offset(f, slot) + (f.h + f.gap)) by (nonlinear_arith)
        requires
            slot < usize::MAX,
    ;
}

/// Slot 0 hugs the corner: the popup sits exactly its offsets away from both edges.
pub proof fn slot_zero_hugs_the_corner(a: Rect, f: Footprint, corner: Corner)
    ensures
        ({
            let p = placed(a, f, corner, 0);
            &&& (corner is TopLeft || corner is BottomLeft) ==> p.0 == a.x + f.off_x
            &&& (corner is TopRight || corner is BottomRight) ==> p.0 + f.w + f.off_x == a.x + a.w
            &&& (corner is TopLeft || corner is TopRight) ==> p.1 == a.y + f.off_y
            &&& (corner is BottomLeft || corner is BottomRight) ==> p.1 + f.h + f.off_y == a.y + a.h
        }),
{
}

/// How to find the monitor popups open on.
#[derive(Debug, Clone, Copy, PartialEq, Eq)]
pub enum MonitorChoice {
    /// The monitor under the mouse pointer.
    Cursor,
    /// The monitor at this 0-based position in the system's list.
    Index(usize),
    /// The primary monitor.
    Primary,
}

/// `"cursor"` follows the pointer, an index picks a monitor, and `"primary"` - or any
/// other name validation let through - means the primary monitor.
pub fn monitor_choice(select: &MonitorSelect) -> (r: MonitorChoice)
    ensures
        r == match select {
            MonitorSelect::Named(n) => if n@ == "cursor"@ {
                MonitorChoice::Cursor
            } else {
                MonitorChoice::Primary
            },
            MonitorSelect::Index(i) => MonitorChoice::Index(*i),
        },
{
    match select {
        MonitorSelect::Named(name) => if str_eq(name.as_str(), "cursor") {
            MonitorChoice::Cursor
        } else {
            MonitorChoice::Primary
        },
        MonitorSelect::Index(i) => MonitorChoice::Index(*i),
    }
}

/// The CSS injected into go2rtc's `stream.html`: no letterboxing margin or scrollbars,
/// the configured fit, and the mode badge hidden unless asked for.
pub open spec fn overlay_css(p: Popup) -> Seq<char> {
    "html,body{background:#000!important;margin:0!important;overflow:hidden!important}video-stream video{object-fit:"@
        + p.video_fit@ + "!important;width:100%!important;height:100%!important}"@ + if p.show_stream_badge {
        Seq::<char>::empty()
    } else {
        "video-stream .info{display:none!important}"@
    }
}

pub open spec fn overlay_head() -> Seq<char> {
    "(function(){var css="@
}

pub open spec fn overlay_tail() -> Seq<char> {
    ";function inject(){try{if(document.getElementById('frigate-popup-style'))return true;var root=document.head||document.documentElement;if(!root)return false;var s=document.createElement('style');s.id='frigate-popup-style';s.textContent=css;root.appendChild(s);return true;}catch(e){return false;}}document.addEventListener('DOMContentLoaded',inject);window.addEventListener('load',inject);if(!inject()){var t=setInterval(function(){if(inject())clearInterval(t);},16);setTimeout(function(){clearInterval(t);},5000);}})();"@
}

/// The overlay script around `css_literal`, the CSS already written as a JSON string
/// literal.
pub fn overlay_script_around(css_literal: &str) -> (r: String)
    ensures
        r@ == overlay_head() + css_literal@ + overlay_tail(),
{
    let mut script = cat("(function(){var css=", css_literal);
    script.append(
        ";function inject(){try{if(document.getElementById('frigate-popup-style'))return true;var root=document.head||document.documentElement;if(!root)return false;var s=document.createElement('style');s.id='frigate-popup-style';s.textContent=css;root.appendChild(s);return true;}catch(e){return false;}}document.addEventListener('DOMContentLoaded',inject);window.addEventListener('load',inject);if(!inject()){var t=setInterval(function(){if(inject())clearInterval(t);},16);setTimeout(function(){clearInterval(t);},5000);}})();",
    );
    script
}

/// The script that restyles go2rtc's `stream.html` from the outside.
///
/// It runs before the document is parsed, when `document.head` does not exist yet: the
/// load listeners are registered first and the eager attempt is guarded, so a throw there
/// cannot take the fallbacks down with it. The CSS travels as a JSON string literal so
/// quotes and braces in it cannot break out.
pub fn overlay_script(popup: &Popup) -> (r: String)
    ensures
        r@ == overlay_head() + json_string_literal(overlay_css(*popup)) + overlay_tail(),
{
    let mut css = owned(
        "html,body{background:#000!important;margin:0!important;overflow:hidden!important}video-stream video{object-fit:",
    );
    css.append(popup.video_fit.as_str());
    css.append("!important;width:100%!important;height:100%!important}");
    if !popup.show_stream_badge {
        css.append("video-stream .info{display:none!important}");
    }
    let literal = match json_string(css.as_str()) {
        Ok(s) => s,
        Err(_) => owned("\"\""),
    };
    overlay_script_around(literal.as_str())
}

/// The detection label a popup shows: the camera's first watched label for a detection,
/// nothing for a live view - a "PERSON" badge on a window opened by hand would read as a
/// false alert.
pub open spec fn popup_label(c: Config, cam: Camera, kind: Kind) -> Seq<char> {
    match kind {
        Kind::Detection => if labels_for_spec(c, cam).len() > 0 {
            labels_for_spec(c, cam)[0]@
        } else {
            Seq::<char>::empty()
        },
        Kind::Live => Seq::<char>::empty(),
    }
}

/// `window.__POPUP__` as a JSON object with its keys in sorted order, each value given
/// as a JSON literal.
pub open spec fn popup_object(
    camera: Seq<char>,
    fit: Seq<char>,
    go2rtc: Seq<char>,
    kind: Seq<char>,
    label: Seq<char>,
    stream: Seq<char>,
) -> Seq<char> {
    "window.__POPUP__={\"camera\":"@ + camera + ",\"fit\":"@ + fit + ",\"go2rtc\":"@ + go2rtc
        + ",\"kind\":"@ + kind + ",\"label\":"@ + label + ",\"stream\":"@ + stream + "};"@
}

/// `window.__POPUP__` for the bundled page: the camera, its stream, where go2rtc is, how to
/// fit the video, what kind of popup it is and the detection label.
pub open spec fn popup_context(c: Config, cam: Camera, kind: Kind) -> Seq<char> {
    popup_object(
        json_string_literal(cam.name@),
        json_string_literal(c.popup.video_fit@),
        json_string_literal(c.frigate.go2rtc_url@),
        json_string_literal(kind_name(kind)),
        json_string_literal(popup_label(c, cam, kind)),
        json_string_literal(cam.stream@),
    )
}

/// Writes `window.__POPUP__` from the JSON literals of its six values.
pub fn popup_context_around(
    camera: &str,
    fit: &str,
    go2rtc: &str,
    kind: &str,
    label: &str,
    stream: &str,
) -> (r: String)
    ensures
        r@ == popup_object(camera@, fit@, go2rtc@, kind@, label@, stream@),
{
    let mut r = cat("window.__POPUP__={\"camera\":", camera);
    r.append(",\"fit\":");
    r.append(fit);
    r.append(",\"go2rtc\":");
    r.append(go2rtc);
    r.append(",\"kind\":");
    r.append(kind);
    r.append(",\"label\":");
    r.append(label);
    r.append(",\"stream\":");
    r.append(stream);
    r.append("};");
    r
}

fn json_or(s: &str, ok: &mut bool) -> (r: String)
    ensures
        r@ == json_string_literal(s@),
        *final(ok) == *old(ok),
{
    match json_string(s) {
        Ok(t) => t,
        Err(_) => {
            *ok = false;
            String::new()
        },
    }
}

/// Injects `window.__POPUP__` for the bundled page.
pub fn popup_context_script(config: &Config, camera: &Camera, kind: Kind) -> (r: String)
    ensures
        r@ == popup_context(*config, *camera, kind),
{
    let label = match kind {
        Kind::Detection => {
            let labels = config.labels_for(camera);
            if labels.len() > 0 {
                labels[0].clone()
            } else {
                String::new()
            }
        },
        Kind::Live => String::new(),
    };
    let mut ok = true;
    let camera_lit = json_or(camera.name.as_str(), &mut ok);
    let fit_lit = json_or(config.popup.video_fit.as_str(), &mut ok);
    let go2rtc_lit = json_or(config.frigate.go2rtc_url.as_str(), &mut ok);
    let kind_lit = json_or(kind.as_str(), &mut ok);
    let label_lit = json_or(label.as_str(), &mut ok);
    let stream_lit = json_or(camera.stream.as_str(), &mut ok);
    if !ok {
        return owned("window.__POPUP__={};");
    }
    popup_context_around(
        camera_lit.as_str(),
        fit_lit.as_str(),
        go2rtc_lit.as_str(),
        kind_lit.as_str(),
        label_lit.as_str(),
        stream_lit.as_str(),
    )
}

/// What a popup window loads.
#[derive(Debug)]
pub enum PopupPage {
    /// The bundled page, which does its own WebRTC signalling, with its context script.
    Local { script: String },
    /// go2rtc's own `stream.html` at `url`, restyled from the outside by `script`.
    External { url: String, script: String },
}

/// `page = "local"` serves the bundled page; anything else points straight at go2rtc.
pub fn popup_page(config: &Config, camera: &Camera, kind: Kind) -> (r: PopupPage)
    ensures
        config.popup.page@ == "local"@ ==> (r matches PopupPage::Local { script } && script@
            == popup_context(*config, *camera, kind)),
        config.popup.page@ != "local"@ ==> (r matches PopupPage::External { url, script } && url@
            == config.frigate.go2rtc_url@ + "/stream.html?src="@ + camera.stream@ + "&mode="@
            + config.popup.stream_mode@ && script@ == overlay_head() + json_string_literal(
            overlay_css(config.popup),
        ) + overlay_tail()),
{
    if str_eq(config.popup.page.as_str(), "local") {
        PopupPage::Local { script: popup_context_script(config, camera, kind) }
    } else {
        PopupPage::External {
            url: config.stream_url(camera.stream.as_str()),
            script: overlay_script(&config.popup),
        }
    }
}


/// The badge of a detection popup names a label the camera's trigger watches - the first
/// of the camera's own list when it has one, else the first of `detection.labels` - and is
/// empty only when that list is; a live popup never carries one.
pub proof fn the_badge_is_the_first_watched_label(c: Config, cam: Camera)
    ensures
        popup_label(c, cam, Kind::Live).len() == 0,
        match cam.labels {
            Some(l) => popup_label(c, cam, Kind::Detection) == (if l@.len() > 0 {
                l@[0]@
            } else {
                Seq::<char>::empty()
            }),
            None => popup_label(c, cam, Kind::Detection) == (if c.detection.labels@.len() > 0 {
                c.detection.labels@[0]@
            } else {
                Seq::<char>::empty()
            }),
        },
        popup_label(c, cam, Kind::Detection).len() > 0 ==> watches(
            c,
            cam,
            popup_label(c, cam, Kind::Detection),
        ),
{
    match cam.labels {
        Some(l) => {
            if l@.len() > 0 {
                assert(l@[0]@ == popup_label(c, cam, Kind::Detection));
            }
        },
        None => {
            if c.detection.labels@.len() > 0 {
                assert(c.detection.labels@[0]@ == popup_label(c, cam, Kind::Detection));
            }
        },
    }
}

} // verus!
