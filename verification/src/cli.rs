//! Command line arguments. Deliberately hand-rolled: there are two flags.

use vstd::prelude::*;
use crate::text::{
    cat, owned, split, split_on, split_once, split_once_on, str_eq, str_views, string_views, trim,
    trimmed,
};

verus! {

pub const USAGE: &'static str = "\
frigate-popup - camera popups driven by Frigate NVR events

USAGE:
    frigate-popup [OPTIONS]

OPTIONS:
    --preview [CAMERAS]  Open popups immediately without waiting for a detection, so you
                         can see the size, position and stream quality. CAMERAS is a
                         comma-separated list of camera names from the config; omit it to
                         preview the first `popup.max_popups` enabled cameras. The windows
                         stay up until you quit from the tray.
    --simulate CAMERA    Inject a fake `new` detection for CAMERA once at startup and run
                         it through the real trigger logic, then carry on normally. Accepts
                         CAMERA:LABEL to simulate something other than a person.
    -h, --help           Show this message and exit.

Config and logs live in %APPDATA%\\frigate-popup\\, or next to the executable when a
config.toml sits beside it.";

pub const DEFAULT_SIMULATED_LABEL: &'static str = "person";

#[derive(Debug, Clone, PartialEq, Eq)]
pub enum Mode {
    /// Normal operation: sit in the tray and wait for MQTT events.
    Normal,
    /// Open popups straight away. An empty list means "pick sensible defaults".
    Preview { cameras: Vec<String> },
    /// Run normally, but inject one fake detection at startup.
    Simulate { camera: String, label: String },
    Help,
}

/// `Mode` with its strings as character sequences.
pub enum ModeView {
    Normal,
    Preview { cameras: Seq<Seq<char>> },
    Simulate { camera: Seq<char>, label: Seq<char> },
    Help,
}

impl View for Mode {
    type V = ModeView;

    open spec fn view(&self) -> ModeView {
        match self {
            Mode::Normal => ModeView::Normal,
            Mode::Preview { cameras } => ModeView::Preview { cameras: string_views(cameras@) },
            Mode::Simulate { camera, label } => ModeView::Simulate { camera: camera@, label: label@ },
            Mode::Help => ModeView::Help,
        }
    }
}

/// An argument that looks like a flag.
pub open spec fn is_flag(s: Seq<char>) -> bool {
    s.len() > 0 && s[0] == '-'
}

/// The trimmed, non-empty pieces of a comma-separated list, in order.
pub open spec fn listed(pieces: Seq<Seq<char>>) -> Seq<Seq<char>>
    decreases pieces.len(),
{
    if pieces.len() == 0 {
        Seq::<Seq<char>>::empty()
    } else {
        let r = listed(pieces.drop_last());
        let t = trimmed(pieces.last());
        if t.len() > 0 {
            r.push(t)
        } else {
            r
        }
    }
}

/// `--simulate CAMERA` or `--simulate CAMERA:LABEL`; a missing label means a person.
pub open spec fn simulate_mode(v: Seq<char>) -> ModeView {
    match split_once_on(v, ':') {
        Some((camera, label)) => if label.len() > 0 {
            ModeView::Simulate { camera, label }
        } else {
            ModeView::Simulate { camera: v, label: DEFAULT_SIMULATED_LABEL@ }
        },
        None => ModeView::Simulate { camera: v, label: DEFAULT_SIMULATED_LABEL@ },
    }
}

pub open spec fn needs_camera_message() -> Seq<char> {
    "--simulate needs a camera name, e.g. --simulate doorbell\n\n"@ + USAGE@
}

pub open spec fn unrecognised_message(arg: Seq<char>) -> Seq<char> {
    "unrecognised argument: "@ + arg + "\n\n"@ + USAGE@
}

/// The outcome of reading `args`, the mode so far being `mode`. Help wins at once; a
/// later flag overrides an earlier one.
pub open spec fn parse_from(args: Seq<Seq<char>>, mode: ModeView) -> Result<ModeView, Seq<char>>
    decreases args.len(),
{
    if args.len() == 0 {
        Ok(mode)
    } else {
        let a = args[0];
        let rest = args.drop_first();
        if a == "-h"@ || a == "--help"@ {
            Ok(ModeView::Help)
        } else if a == "--preview"@ {
            // The camera list is optional, so only the next argument that is not itself a
            // flag is taken as one.
            if rest.len() > 0 && !is_flag(rest[0]) {
                parse_from(rest.drop_first(), ModeView::Preview { cameras: listed(split_on(rest[0], ',')) })
            } else {
                parse_from(rest, ModeView::Preview { cameras: Seq::<Seq<char>>::empty() })
            }
        } else if a == "--simulate"@ {
            if rest.len() == 0 || is_flag(rest[0]) || rest[0].len() == 0 {
                Err(needs_camera_message())
            } else {
                parse_from(rest.drop_first(), simulate_mode(rest[0]))
            }
        } else {
            Err(unrecognised_message(a))
        }
    }
}

/// The mode selected by the command line `args`, whose first item is the program path.
pub open spec fn parse_spec(args: Seq<Seq<char>>) -> Result<ModeView, Seq<char>> {
    if args.len() == 0 {
        Ok(ModeView::Normal)
    } else {
        parse_from(args.drop_first(), ModeView::Normal)
    }
}

fn looks_like_flag(s: &str) -> (r: bool)
    ensures
        r == is_flag(s@),
{
    s.unicode_len() > 0 && s.get_char(0) == '-'
}

fn camera_list(s: &str) -> (r: Vec<String>)
    ensures
        string_views(r@) == listed(split_on(s@, ',')),
{
    let pieces = split(s, ',');
    let n = pieces.len();
    let mut r: Vec<String> = Vec::new();
    let mut i: usize = 0;
    assert(str_views(pieces@).take(0) =~= Seq::<Seq<char>>::empty());
    while i < n
        invariant
            i <= n,
            n == pieces@.len(),
            str_views(pieces@) == split_on(s@, ','),
            string_views(r@) == listed(str_views(pieces@).take(i as int)),
        decreases n - i,
    {
        let t = trim(pieces[i]);
        assert(str_views(pieces@).take(i as int + 1).drop_last() =~= str_views(pieces@).take(i as int));
        assert(str_views(pieces@).take(i as int + 1).last() == pieces@[i as int]@);
        if t.unicode_len() > 0 {
            let ghost prev = string_views(r@);
            r.push(owned(t));
            assert(string_views(r@) =~= prev.push(t@));
        }
        i = i + 1;
    }
    assert(str_views(pieces@).take(n as int) =~= str_views(pieces@));
    r
}

fn simulate(value: &str) -> (r: Mode)
    ensures
        r@ == simulate_mode(value@),
{
    match split_once(value, ':') {
        Some((camera, label)) => {
            if label.unicode_len() > 0 {
                return Mode::Simulate { camera: owned(camera), label: owned(label) };
            }
        },
        None => {},
    }
    Mode::Simulate { camera: owned(value), label: owned(DEFAULT_SIMULATED_LABEL) }
}

/// Reads the command line. `args[0]` is the program path and is skipped.
pub fn parse(args: &Vec<String>) -> (r: Result<Mode, String>)
    ensures
        match r {
            Ok(m) => parse_spec(string_views(args@)) == Ok::<ModeView, Seq<char>>(m@),
            Err(e) => parse_spec(string_views(args@)) == Err::<ModeView, Seq<char>>(e@),
        },
{
    let n = args.len();
    let ghost all = string_views(args@);
    let mut mode = Mode::Normal;
    if n == 0 {
        return Ok(mode);
    }
    let mut i: usize = 1;
    assert(all.skip(1) =~= all.drop_first());
    while i < n
        invariant
            1 <= i <= n,
            n == args@.len(),
            all == string_views(args@),
            parse_spec(all) == parse_from(all.skip(i as int), mode@),
        decreases n - i,
    {
        let arg = args[i].as_str();
        let ghost rest = all.skip(i as int);
        assert(rest[0] == arg@);
        assert(rest.drop_first() =~= all.skip(i as int + 1));
        if str_eq(arg, "-h") || str_eq(arg, "--help") {
            return Ok(Mode::Help);
        } else if str_eq(arg, "--preview") {
            if i + 1 < n && !looks_like_flag(args[i + 1].as_str()) {
                assert(all.skip(i as int + 1)[0] == args@[i as int + 1]@);
                assert(all.skip(i as int + 1).drop_first() =~= all.skip(i as int + 2));
                mode = Mode::Preview { cameras: camera_list(args[i + 1].as_str()) };
                i = i + 2;
            } else {
                let cameras: Vec<String> = Vec::new();
                assert(string_views(cameras@) =~= Seq::<Seq<char>>::empty());
                mode = Mode::Preview { cameras };
                i = i + 1;
            }
        } else if str_eq(arg, "--simulate") {
            if i + 1 >= n || looks_like_flag(args[i + 1].as_str()) || args[i + 1].as_str().unicode_len()
                == 0 {
                let mut e = owned("--simulate needs a camera name, e.g. --simulate doorbell\n\n");
                e.append(USAGE);
                return Err(e);
            }
            assert(all.skip(i as int + 1)[0] == args@[i as int + 1]@);
            assert(all.skip(i as int + 1).drop_first() =~= all.skip(i as int + 2));
            mode = simulate(args[i + 1].as_str());
            i = i + 2;
        } else {
            let mut e = cat("unrecognised argument: ", arg);
            e.append("\n\n");
            e.append(USAGE);
            return Err(e);
        }
    }
    assert(all.skip(n as int) =~= Seq::<Seq<char>>::empty());
    Ok(mode)
}

} // verus!
