//! What the user interface decides.
use vstd::prelude::*;
use vstd::utf8::encode_utf8;

use crate::engine::commands::{command_of, law_commands_are_read, CommandView};
use crate::text::{concat, contains, has_text, same_text, starts_with, views};
use crate::textmap::{value_at, with_value, without_value, TextMap};

verus! {

/// What the text in the bar is taken for.
#[derive(Clone, Copy, Debug, PartialEq, Eq, Structural)]
pub enum OmniMode {
    Search,
    Magnet,
    Torrent,
}

/// What the text in the bar is taken for: a magnet link or a bare info hash, the address
/// of a torrent file, or something to search for.
pub open spec fn mode_of(text: Seq<char>) -> OmniMode {
    if "magnet:"@.is_prefix_of(text) || encode_utf8(text).len() == 40 {
        OmniMode::Magnet
    } else if "http"@.is_prefix_of(text) && contains(text, ".torrent"@) {
        OmniMode::Torrent
    } else {
        OmniMode::Search
    }
}

/// What the text in the bar is taken for.
pub fn parse_omni(text: &str) -> (r: OmniMode)
    ensures
        r == mode_of(text@),
{
    if starts_with(text, "magnet:") || text.as_bytes().len() == 40 {
        OmniMode::Magnet
    } else if starts_with(text, "http") && has_text(text, ".torrent") {
        OmniMode::Torrent
    } else {
        OmniMode::Search
    }
}

/// A request to the server.
#[derive(Clone, Debug, PartialEq, Eq)]
pub enum UiRequest {
    /// To add a link or carry out a command.
    Magnet(String),
    /// To search, at this address.
    Search(String),
}

/// A request in values.
pub enum RequestView {
    Magnet(Seq<char>),
    Search(Seq<char>),
}

/// An optional request in values.
pub open spec fn request_view(r: Option<UiRequest>) -> Option<RequestView> {
    match r {
        Some(UiRequest::Magnet(t)) => Some(RequestView::Magnet(t@)),
        Some(UiRequest::Search(t)) => Some(RequestView::Search(t@)),
        None => None,
    }
}

/// Where a search is asked for.
pub open spec fn search_link(text: Seq<char>, provider: Seq<char>) -> Seq<char> {
    "/api/search?query="@ + text + "&provider="@ + provider
}

/// What the text in the bar asks for; an empty one for nothing.
pub open spec fn submitted(mode: OmniMode, text: Seq<char>, provider: Seq<char>) -> Option<
    RequestView,
> {
    if text.len() == 0 {
        None
    } else if mode == OmniMode::Search {
        Some(RequestView::Search(search_link(text, provider)))
    } else {
        Some(RequestView::Magnet(text))
    }
}

/// Where a search is asked for.
fn search_address(text: &str, provider: &str) -> (r: String)
    ensures
        r@ == search_link(text@, provider@),
{
    let mut link = concat("/api/search?query=", text);
    link.append("&provider=");
    link.append(provider);
    link
}

/// What the text in the bar asks for.
pub fn submit_omni(mode: OmniMode, text: &str, provider: &str) -> (r: Option<UiRequest>)
    ensures
        request_view(r) == submitted(mode, text@, provider@),
{
    if text.is_empty() {
        return None;
    }
    match mode {
        OmniMode::Search => Some(UiRequest::Search(search_address(text, provider))),
        OmniMode::Magnet => Some(UiRequest::Magnet(String::from_str(text))),
        OmniMode::Torrent => Some(UiRequest::Magnet(String::from_str(text))),
    }
}

/// The command that starts a torrent.
pub fn start_command(hash: &str) -> (r: String)
    ensures
        r@ == "start:"@ + hash@,
        command_of(r@) == CommandView::Start(hash@),
{
    proof {
        law_commands_are_read(hash@);
    }
    concat("start:", hash)
}

/// The command that stops a torrent.
pub fn stop_command(hash: &str) -> (r: String)
    ensures
        r@ == "stop:"@ + hash@,
        command_of(r@) == CommandView::Stop(hash@),
{
    proof {
        law_commands_are_read(hash@);
    }
    concat("stop:", hash)
}

/// The command that deletes a torrent.
pub fn delete_command(hash: &str) -> (r: String)
    ensures
        r@ == "delete:"@ + hash@,
        command_of(r@) == CommandView::Delete(hash@),
{
    proof {
        law_commands_are_read(hash@);
    }
    concat("delete:", hash)
}

/// The names without the first `name`; with it at the end, where it was not among them.
pub open spec fn toggled(names: Seq<Seq<char>>, name: Seq<char>) -> Seq<Seq<char>> {
    if names.contains(name) {
        names.remove(names.index_of_first(name).unwrap())
    } else {
        names.push(name)
    }
}

/// Opens or closes the files of the torrent with the hash.
pub fn toggle_files(open: &mut Vec<String>, hash: String)
    ensures
        views(final(open)@) == toggled(views(old(open)@), hash@),
{
    let ghost all = views(open@);
    proof {
        all.index_of_first_ensures(hash@);
    }
    let n: usize = open.len();
    let mut i: usize = 0;
    while i < n && !(open[i] == hash)
        invariant
            i <= n,
            n == open@.len(),
            all == views(open@),
            forall|k: int| 0 <= k < i ==> #[trigger] all[k] != hash@,
        decreases n - i,
    {
        proof {
            assert(all[i as int] == open@[i as int]@);
        }
        i = i + 1;
    }
    if i < n {
        proof {
            assert(all[i as int] == open@[i as int]@);
            assert(all.contains(hash@));
            let first = all.index_of_first(hash@).unwrap();
            assert(first == i) by {
                if first < i {
                    assert(all[first] != hash@);
                }
            }
        }
        let _ = open.remove(i);
        proof {
            assert(views(open@) =~= all.remove(i as int));
        }
    } else {
        let ghost name = hash@;
        proof {
            assert(!all.contains(name));
        }
        open.push(hash);
        proof {
            assert(views(open@) =~= all.push(name));
        }
    }
}

/// Opens the panel of a torrent, in place of another one, or closes it where it is open.
pub fn toggle_panel(open: &mut TextMap<String>, hash: String, panel: String)
    ensures
        final(open)@ == (if value_at(old(open)@, hash@) == Some(panel@) {
            without_value(old(open)@, hash@)
        } else {
            with_value(old(open)@, hash@, panel@)
        }),
{
    let is_open = match open.get(hash.as_str()) {
        Some(shown) => same_text(shown.as_str(), panel.as_str()),
        None => false,
    };
    if is_open {
        let _ = open.remove(hash.as_str());
    } else {
        open.insert(hash, panel);
    }
}

/// The path of a file in the directory with the path `path`.
pub fn child_path(path: &str, name: &str) -> (r: String)
    ensures
        r@ == (if path@.len() == 0 {
            name@
        } else {
            path@ + "/"@ + name@
        }),
{
    if path.is_empty() {
        String::from_str(name)
    } else {
        let mut full = concat(path, "/");
        full.append(name);
        full
    }
}

/// Where the file with the path is downloaded and deleted.
pub fn download_link(path: &str) -> (r: String)
    ensures
        r@ == "/download/"@ + path@,
{
    concat("/download/", path)
}

/// Where the state of the server is read, by where the page came from.
pub fn sync_address(protocol: &str, host: &str) -> (r: String)
    ensures
        r@ == (if protocol@ == "https:"@ {
            "wss:"@
        } else {
            "ws:"@
        }) + "//"@ + host@ + "/sync/ws"@,
{
    let scheme = if same_text(protocol, "https:") {
        "wss:"
    } else {
        "ws:"
    };
    let mut link = concat(scheme, "//");
    link.append(host);
    link.append("/sync/ws");
    link
}

/// The buttons of a torrent.
#[derive(Clone, Copy, Debug, PartialEq, Eq, Structural)]
pub struct Controls {
    pub start: bool,
    pub start_enabled: bool,
    pub stop: bool,
    pub remove: bool,
}

/// The buttons of a torrent. One that is not loaded can only be removed; of the others
/// those that run can be stopped, and those that do not can be started or removed.
pub fn controls(loaded: bool, started: bool) -> (r: Controls)
    ensures
        r.start == loaded,
        r.start_enabled == (loaded && !started),
        r.stop == (loaded && started),
        r.remove == (!loaded || !started),
{
    Controls {
        start: loaded,
        start_enabled: loaded && !started,
        stop: loaded && started,
        remove: !loaded || !started,
    }
}

/// The colour that a number of peers is shown in.
pub fn peers_colour(connected: u32, total: u32) -> (r: &'static str)
    ensures
        r@ == (if connected > 0 {
            "green"@
        } else if total > 0 {
            "yellow"@
        } else {
            ""@
        }),
{
    if connected > 0 {
        "green"
    } else if total > 0 {
        "yellow"
    } else {
        ""
    }
}

/// Toggling a name leaves every other as it was.
proof fn lemma_toggled(names: Seq<Seq<char>>, name: Seq<char>)
    requires
        names.no_duplicates(),
    ensures
        toggled(names, name).no_duplicates(),
        toggled(names, name).contains(name) <==> !names.contains(name),
        forall|other: Seq<char>|
            other != name ==> (#[trigger] toggled(names, name).contains(other) <==> names.contains(
                other,
            )),
        !names.contains(name) ==> toggled(toggled(names, name), name) == names,
{
    let r = toggled(names, name);
    names.index_of_first_ensures(name);
    if names.contains(name) {
        let at = names.index_of_first(name).unwrap();
        assert forall|k: int| 0 <= k < r.len() implies #[trigger] r[k] != name by {
            if k < at {
                assert(r[k] == names[k]);
            } else {
                assert(r[k] == names[k + 1]);
            }
        }
        assert forall|other: Seq<char>| other != name implies (#[trigger] r.contains(other)
            <==> names.contains(other)) by {
            if r.contains(other) {
                let k = choose|k: int| 0 <= k < r.len() && r[k] == other;
                if k < at {
                    assert(names[k] == other);
                } else {
                    assert(names[k + 1] == other);
                }
            }
            if names.contains(other) {
                let k = choose|k: int| 0 <= k < names.len() && names[k] == other;
                if k < at {
                    assert(r[k] == other);
                } else {
                    assert(r[k - 1] == other);
                }
            }
        }
    } else {
        assert(r[names.len() as int] == name);
        assert forall|other: Seq<char>| other != name implies (#[trigger] r.contains(other)
            <==> names.contains(other)) by {
            if r.contains(other) {
                let k = choose|k: int| 0 <= k < r.len() && r[k] == other;
                assert(names[k] == other);
            }
            if names.contains(other) {
                let k = choose|k: int| 0 <= k < names.len() && names[k] == other;
                assert(r[k] == other);
            }
        }
        r.index_of_first_ensures(name);
        let at = r.index_of_first(name).unwrap();
        assert(at == names.len()) by {
            if at < names.len() {
                assert(names[at] == name);
            }
        }
        assert(r.remove(at) =~= names);
    }
}

/// Opening and closing the files of a torrent leaves those of every other as they were,
/// and doing it twice those of all.
pub proof fn law_toggle(names: Seq<Seq<char>>, name: Seq<char>)
    requires
        names.no_duplicates(),
    ensures
        toggled(names, name).no_duplicates(),
        toggled(names, name).contains(name) <==> !names.contains(name),
        forall|other: Seq<char>|
            other != name ==> (#[trigger] toggled(names, name).contains(other) <==> names.contains(
                other,
            )),
        forall|other: Seq<char>| #[trigger]
            toggled(toggled(names, name), name).contains(other) <==> names.contains(other),
        !names.contains(name) ==> toggled(toggled(names, name), name) == names,
{
    lemma_toggled(names, name);
    lemma_toggled(toggled(names, name), name);
    assert forall|other: Seq<char>| #[trigger]
        toggled(toggled(names, name), name).contains(other) <==> names.contains(other) by {
        if other != name {
            assert(toggled(names, name).contains(other) <==> names.contains(other));
        }
    }
}

/// A bare info hash is taken for a magnet link.
pub proof fn law_info_hash_is_magnet(text: Seq<char>)
    requires
        encode_utf8(text).len() == 40,
    ensures
        mode_of(text) == OmniMode::Magnet,
{
}

/// What the text in the bar is taken for, otherwise: a magnet link for such a link; a web
/// link that speaks of a torrent file for that; and all else for something to search for.
pub proof fn law_modes(text: Seq<char>)
    ensures
        "magnet:"@.is_prefix_of(text) ==> mode_of(text) == OmniMode::Magnet,
        encode_utf8(text).len() != 40 && "http"@.is_prefix_of(text) && contains(text, ".torrent"@)
            ==> mode_of(text) == OmniMode::Torrent,
        encode_utf8(text).len() != 40 && !"magnet:"@.is_prefix_of(text) && !("http"@.is_prefix_of(
            text,
        ) && contains(text, ".torrent"@)) ==> mode_of(text) == OmniMode::Search,
{
    reveal_strlit("magnet:");
    reveal_strlit("http");
    if "magnet:"@.is_prefix_of(text) {
        assert(text[0] == "magnet:"@[0]);
        if "http"@.is_prefix_of(text) {
            assert(text[0] == "http"@[0]);
        }
    }
}

/// Any text but the empty one asks for something: a link or the address of a torrent file for
/// itself, as it stands, and a text to search for with the provider.
pub proof fn law_submitted(mode: OmniMode, text: Seq<char>, provider: Seq<char>)
    ensures
        submitted(mode, text, provider) is None <==> text.len() == 0,
        text.len() > 0 && mode != OmniMode::Search ==> submitted(mode, text, provider) == Some(
            RequestView::Magnet(text),
        ),
        text.len() > 0 && mode == OmniMode::Search ==> submitted(mode, text, provider) == Some(
            RequestView::Search("/api/search?query="@ + text + "&provider="@ + provider),
        ),
{
}

/// Opening puts the files of a torrent last; closing leaves those of the others in their
/// order.
pub proof fn law_toggle_keeps_the_order(names: Seq<Seq<char>>, name: Seq<char>, k: int)
    requires
        names.no_duplicates(),
    ensures
        !names.contains(name) ==> toggled(names, name) == names.push(name),
        0 <= k < names.len() && names[k] == name ==> toggled(names, name) == names.remove(k),
{
    names.index_of_first_ensures(name);
    if 0 <= k < names.len() && names[k] == name {
        assert(names.contains(name));
    }
}

} // verus!
