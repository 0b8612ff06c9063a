//! What the tray menu shows and how its item ids map back to cameras.

use vstd::prelude::*;
use crate::config::Camera;
use crate::text::{cat, has_prefix, owned, starts_with};

verus! {

/// Prefix of the per-camera "show me this feed" menu item ids.
pub const CAMERA_ITEM_PREFIX: &'static str = "camera:";

/// `s` with every underscore shown as a space.
pub open spec fn spaced(s: Seq<char>) -> Seq<char>
    decreases s.len(),
{
    if s.len() == 0 {
        s
    } else {
        spaced(s.drop_last()).push(if s.last() == '_' {
            ' '
        } else {
            s.last()
        })
    }
}

/// The menu id of a camera's item.
pub fn camera_item_id(camera: &Camera) -> (r: String)
    ensures
        r@ == CAMERA_ITEM_PREFIX@ + camera.name@,
{
    cat(CAMERA_ITEM_PREFIX, camera.name.as_str())
}

/// The menu title of a camera's item: its name with underscores shown as spaces, marked
/// when the camera raises no alerts.
pub fn camera_item_title(camera: &Camera) -> (r: String)
    ensures
        r@ == spaced(camera.name@) + if camera.enabled {
            Seq::<char>::empty()
        } else {
            "  (alerts off)"@
        },
{
    let name = camera.name.as_str();
    let n = name.unicode_len();
    let mut title = String::new();
    let mut i: usize = 0;
    while i < n
        invariant
            i <= n,
            n == name@.len(),
            name@ == camera.name@,
            title@ == spaced(name@.take(i as int)),
        decreases n - i,
    {
        let ghost prev = title@;
        assert(name@.take(i as int + 1).drop_last() =~= name@.take(i as int));
        assert(name@.take(i as int + 1).last() == name@[i as int]);
        if name.get_char(i) == '_' {
            proof {
                reveal_strlit(" ");
            }
            title.append(" ");
            assert(title@ =~= prev.push(' '));
        } else {
            let piece = name.substring_char(i, i + 1);
            title.append(piece);
            assert(piece@ =~= seq![name@[i as int]]);
            assert(title@ =~= prev.push(name@[i as int]));
        }
        i = i + 1;
    }
    assert(name@.take(n as int) =~= name@);
    if !camera.enabled {
        title.append("  (alerts off)");
    } else {
        assert(title@ =~= title@ + Seq::<char>::empty());
    }
    title
}

/// The camera a menu item id asks for, when it is a camera item.
pub fn camera_of_item(id: &str) -> (r: Option<&str>)
    ensures
        has_prefix(id@, CAMERA_ITEM_PREFIX@) ==> (r matches Some(c) && c@ == id@.skip(
            CAMERA_ITEM_PREFIX@.len() as int,
        )),
        !has_prefix(id@, CAMERA_ITEM_PREFIX@) ==> r is None,
{
    if starts_with(id, CAMERA_ITEM_PREFIX) {
        let k = CAMERA_ITEM_PREFIX.unicode_len();
        let n = id.unicode_len();
        let c = id.substring_char(k, n);
        assert(c@ =~= id@.skip(k as int));
        Some(c)
    } else {
        None
    }
}

/// The tray tooltip, which shows when notifications are paused.
pub fn tooltip(paused: bool) -> (r: &'static str)
    ensures
        r@ == if paused {
            "frigate-popup - notifications paused"@
        } else {
            "frigate-popup"@
        },
{
    if paused {
        "frigate-popup - notifications paused"
    } else {
        "frigate-popup"
    }
}

/// Every camera's menu item id leads back to that camera.
pub proof fn camera_items_round_trip(name: Seq<char>)
    ensures
        has_prefix(CAMERA_ITEM_PREFIX@ + name, CAMERA_ITEM_PREFIX@),
        (CAMERA_ITEM_PREFIX@ + name).skip(CAMERA_ITEM_PREFIX@.len() as int) == name,
{
    let id = CAMERA_ITEM_PREFIX@ + name;
    assert(id.subrange(0, CAMERA_ITEM_PREFIX@.len() as int) =~= CAMERA_ITEM_PREFIX@);
    assert(id.skip(CAMERA_ITEM_PREFIX@.len() as int) =~= name);
}

} // verus!
