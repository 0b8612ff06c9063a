//! The camera picker's page context.

use vstd::prelude::*;
use crate::config::{Camera, Config};
use crate::json::{json_string, json_string_literal};
use crate::text::{joined, owned, join, string_views};

verus! {

/// One camera in the picker as a JSON object with its keys in sorted order, its name
/// given as a JSON string literal.
pub open spec fn entry_object(enabled: bool, name: Seq<char>) -> Seq<char> {
    "{\"enabled\":"@ + (if enabled {
        "true"@
    } else {
        "false"@
    }) + ",\"name\":"@ + name + "}"@
}

/// One camera in the picker: its name and whether it raises alerts.
pub open spec fn picker_entry(c: Camera) -> Seq<char> {
    entry_object(c.enabled, json_string_literal(c.name@))
}

/// `window.__PICKER__` around camera entries that are already JSON objects.
pub open spec fn picker_object(entries: Seq<Seq<char>>) -> Seq<char> {
    "window.__PICKER__={\"cameras\":["@ + joined(entries, ","@) + "]};"@
}

/// `window.__PICKER__` for the picker page: every configured camera, in order, disabled
/// ones included - asking for a feed by hand is a different intent from wanting alerts.
pub open spec fn picker_context(cams: Seq<Camera>) -> Seq<char> {
    picker_object(cams.map_values(|c: Camera| picker_entry(c)))
}

/// Writes one picker entry from the JSON literal of the camera's name.
pub fn picker_entry_around(enabled: bool, name: &str) -> (r: String)
    ensures
        r@ == entry_object(enabled, name@),
{
    let mut item = owned("{\"enabled\":");
    item.append(if enabled {
        "true"
    } else {
        "false"
    });
    item.append(",\"name\":");
    item.append(name);
    item.append("}");
    item
}

/// Writes `window.__PICKER__` around entries that are already JSON objects.
pub fn picker_script_around(entries: &Vec<String>) -> (r: String)
    ensures
        r@ == picker_object(string_views(entries@)),
{
    let mut r = owned("window.__PICKER__={\"cameras\":[");
    r.append(join(entries, ",").as_str());
    r.append("]};");
    r
}

/// Injects the camera list for the picker page.
pub fn context_script(config: &Config) -> (r: String)
    ensures
        r@ == picker_context(config.cameras@),
{
    let n = config.cameras.len();
    let mut items: Vec<String> = Vec::new();
    let mut ok = true;
    let mut i: usize = 0;
    while i < n
        invariant
            i <= n,
            n == config.cameras@.len(),
            ok,
            string_views(items@) == config.cameras@.take(i as int).map_values(
                |c: Camera| picker_entry(c),
            ),
        decreases n - i,
    {
        let c = &config.cameras[i];
        let name = match json_string(c.name.as_str()) {
            Ok(lit) => lit,
            Err(_) => {
                ok = false;
                String::new()
            },
        };
        let item = picker_entry_around(c.enabled, name.as_str());
        let ghost prev = string_views(items@);
        items.push(item);
        assert(string_views(items@) =~= config.cameras@.take(i as int + 1).map_values(
            |c: Camera| picker_entry(c),
        )) by {
            assert(string_views(items@) =~= prev.push(picker_entry(*c)));
        }
        i = i + 1;
    }
    assert(config.cameras@.take(n as int) =~= config.cameras@);
    if !ok {
        return owned("window.__PICKER__={\"cameras\":[]};");
    }
    picker_script_around(&items)
}

} // verus!
