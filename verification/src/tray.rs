use vstd::prelude::*;

use crate::profiles::{find_char, first_index, lemma_first_index};
use crate::state::ProxyGroup;
use crate::text::{from_chars, own, slice_range, starts_with, str_eq, to_chars};

verus! {

/// Separates the parts of a proxy menu id (U+001F, which proxy names do not
/// hold).
pub const SEP: char = '\u{1f}';

/// `px<SEP>`: the start of a proxy menu id.
pub open spec fn proxy_prefix() -> Seq<char> {
    seq!['p', 'x', SEP]
}

/// The menu id of node `node` in group `group`: `px<SEP>group<SEP>node`.
pub open spec fn proxy_id_v(group: Seq<char>, node: Seq<char>) -> Seq<char> {
    proxy_prefix() + group + seq![SEP] + node
}

/// The menu id of a proxy node.
pub fn proxy_item_id(group: &str, node: &str) -> (r: String)
    ensures
        r@ == proxy_id_v(group@, node@),
{
    let mut s = String::new();
    s.push('p');
    s.push('x');
    s.push(SEP);
    s.push_str(group);
    s.push(SEP);
    s.push_str(node);
    assert(s@ =~= proxy_id_v(group@, node@));
    s
}

/// What a tray menu click asks for.
pub enum TrayAction {
    ShowWindow,
    RuleMode,
    GlobalMode,
    ToggleTun,
    RestartCore,
    QuitWithoutCore,
    Quit,
    SelectProxy { group: String, node: String },
    Nothing,
}

pub enum TrayActionV {
    ShowWindow,
    RuleMode,
    GlobalMode,
    ToggleTun,
    RestartCore,
    QuitWithoutCore,
    Quit,
    SelectProxy { group: Seq<char>, node: Seq<char> },
    Nothing,
}

impl View for TrayAction {
    type V = TrayActionV;

    open spec fn view(&self) -> TrayActionV {
        match self {
            TrayAction::ShowWindow => TrayActionV::ShowWindow,
            TrayAction::RuleMode => TrayActionV::RuleMode,
            TrayAction::GlobalMode => TrayActionV::GlobalMode,
            TrayAction::ToggleTun => TrayActionV::ToggleTun,
            TrayAction::RestartCore => TrayActionV::RestartCore,
            TrayAction::QuitWithoutCore => TrayActionV::QuitWithoutCore,
            TrayAction::Quit => TrayActionV::Quit,
            TrayAction::SelectProxy { group, node } => TrayActionV::SelectProxy {
                group: group@,
                node: node@,
            },
            TrayAction::Nothing => TrayActionV::Nothing,
        }
    }
}

/// The action of a menu id: a proxy id selects the node (the group runs to
/// the first separator, the node is the rest); the fixed ids name their
/// actions; anything else does nothing.
pub open spec fn tray_action_v(id: Seq<char>) -> TrayActionV {
    if starts_with(id, proxy_prefix()) {
        let rest = id.subrange(3, id.len() as int);
        let k = first_index(rest, SEP);
        if k >= 0 {
            TrayActionV::SelectProxy {
                group: rest.subrange(0, k),
                node: rest.subrange(k + 1, rest.len() as int),
            }
        } else {
            TrayActionV::Nothing
        }
    } else if id == "show"@ {
        TrayActionV::ShowWindow
    } else if id == "mode-rule"@ {
        TrayActionV::RuleMode
    } else if id == "mode-global"@ {
        TrayActionV::GlobalMode
    } else if id == "toggle-proxy"@ {
        TrayActionV::ToggleTun
    } else if id == "restart-core"@ {
        TrayActionV::RestartCore
    } else if id == "quit-no-core"@ {
        TrayActionV::QuitWithoutCore
    } else if id == "quit"@ {
        TrayActionV::Quit
    } else {
        TrayActionV::Nothing
    }
}

/// The action a tray menu id stands for.
pub fn handle_menu(id: &str) -> (r: TrayAction)
    ensures
        r@ == tray_action_v(id@),
{
    let cs = to_chars(id);
    if cs.len() >= 3 && cs[0] == 'p' && cs[1] == 'x' && cs[2] == SEP {
        assert(id@.subrange(0, 3) =~= proxy_prefix());
        assert(starts_with(id@, proxy_prefix()));
        let rest = slice_range(cs.as_slice(), 3, cs.len());
        match find_char(rest.as_slice(), SEP) {
            Some(k) => {
                let group = from_chars(slice_range(rest.as_slice(), 0, k).as_slice());
                let node = from_chars(slice_range(rest.as_slice(), k + 1, rest.len()).as_slice());
                return TrayAction::SelectProxy { group, node };
            },
            None => return TrayAction::Nothing,
        }
    }
    assert(!starts_with(id@, proxy_prefix())) by {
        if starts_with(id@, proxy_prefix()) {
            assert(id@[0] == proxy_prefix()[0]);
            assert(id@[1] == proxy_prefix()[1]);
            assert(id@[2] == proxy_prefix()[2]);
        }
    }
    if str_eq(id, "show") {
        TrayAction::ShowWindow
    } else if str_eq(id, "mode-rule") {
        TrayAction::RuleMode
    } else if str_eq(id, "mode-global") {
        TrayAction::GlobalMode
    } else if str_eq(id, "toggle-proxy") {
        TrayAction::ToggleTun
    } else if str_eq(id, "restart-core") {
        TrayAction::RestartCore
    } else if str_eq(id, "quit-no-core") {
        TrayAction::QuitWithoutCore
    } else if str_eq(id, "quit") {
        TrayAction::Quit
    } else {
        TrayAction::Nothing
    }
}

/// Clicking the menu entry of a node selects that node in its group, for any
/// group name without the separator.
pub proof fn law_proxy_id_roundtrip(group: Seq<char>, node: Seq<char>)
    requires
        !group.contains(SEP),
    ensures
        tray_action_v(proxy_id_v(group, node)) == (TrayActionV::SelectProxy { group, node }),
{
    let id = proxy_id_v(group, node);
    assert(id.subrange(0, 3) =~= proxy_prefix());
    let rest = id.subrange(3, id.len() as int);
    assert(rest =~= group + seq![SEP] + node);
    lemma_first_index(rest, SEP);
    assert(rest.subrange(0, group.len() + 1int).drop_last() =~= group);
    lemma_first_index_absent(group, SEP);
    crate::profiles::lemma_first_index_prefix(rest, SEP, group.len() + 1int);
    assert(rest[group.len() as int] == SEP);
    assert(rest.subrange(0, group.len() as int) =~= group);
    assert(rest.subrange(group.len() + 1int, rest.len() as int) =~= node);
}

pub proof fn lemma_first_index_absent(s: Seq<char>, c: char)
    requires
        !s.contains(c),
    ensures
        first_index(s, c) == -1,
    decreases s.len(),
{
    if s.len() > 0 {
        assert(!s.drop_last().contains(c)) by {
            if s.drop_last().contains(c) {
                let j = choose|j: int| 0 <= j < s.drop_last().len() && s.drop_last()[j] == c;
                assert(s[j] == c);
            }
        }
        lemma_first_index_absent(s.drop_last(), c);
        assert(s.last() != c) by {
            if s.last() == c {
                assert(s[s.len() - 1] == c);
            }
        }
    }
}

/// An entry of the tray menu; labels are translation keys.
pub enum MenuEntry {
    Item { id: String, label: String },
    Separator,
    /// The proxies submenu: one submenu per selector group, one check item per
    /// node.
    Proxies(Vec<GroupMenu>),
}

/// A selector group's submenu.
pub struct GroupMenu {
    pub name: String,
    /// `(menu id, node name, selected)` per node.
    pub nodes: Vec<(String, String, bool)>,
}

/// Whether the proxies submenu lists a group: a selector with members.
pub open spec fn menu_group(g: ProxyGroup) -> bool {
    g.kind@ == "Selector"@ && g.all@.len() > 0
}

/// The groups the proxies submenu lists, in order.
pub open spec fn selector_groups(gs: Seq<ProxyGroup>) -> Seq<ProxyGroup>
    decreases gs.len(),
{
    if gs.len() == 0 {
        Seq::empty()
    } else if menu_group(gs.last()) {
        selector_groups(gs.drop_last()).push(gs.last())
    } else {
        selector_groups(gs.drop_last())
    }
}

pub open spec fn item_v(e: MenuEntry) -> Option<(Seq<char>, Seq<char>)> {
    match e {
        MenuEntry::Item { id, label } => Some((id@, label@)),
        _ => None,
    }
}

/// A group submenu lists each node with its id, name and whether it is the
/// group's current selection.
pub open spec fn group_menu_matches(m: GroupMenu, g: ProxyGroup) -> bool {
    &&& m.name@ == g.name@
    &&& m.nodes@.len() == g.all@.len()
    &&& forall|j: int|
        0 <= j < g.all@.len() ==> {
            &&& (#[trigger] m.nodes@[j]).0@ == proxy_id_v(g.name@, g.all@[j].name@)
            &&& m.nodes@[j].1@ == g.all@[j].name@
            &&& m.nodes@[j].2 == (g.all@[j].name@ == g.now@)
        }
}

/// The proxies submenu lists exactly the given groups.
pub open spec fn proxies_match(e: MenuEntry, sel: Seq<ProxyGroup>) -> bool {
    match e {
        MenuEntry::Proxies(ms) => ms@.len() == sel.len() && forall|j: int|
            0 <= j < sel.len() ==> group_menu_matches(#[trigger] ms@[j], sel[j]),
        _ => false,
    }
}

fn item(id: &str, label: &str) -> (r: MenuEntry)
    ensures
        item_v(r) == Some((id@, label@)),
{
    MenuEntry::Item { id: own(id), label: own(label) }
}

fn group_menu(g: &ProxyGroup) -> (r: GroupMenu)
    ensures
        group_menu_matches(r, *g),
{
    let mut nodes: Vec<(String, String, bool)> = Vec::new();
    let mut j: usize = 0;
    while j < g.all.len()
        invariant
            j <= g.all.len(),
            nodes@.len() == j,
            forall|k: int|
                0 <= k < j ==> {
                    &&& (#[trigger] nodes@[k]).0@ == proxy_id_v(g.name@, g.all@[k].name@)
                    &&& nodes@[k].1@ == g.all@[k].name@
                    &&& nodes@[k].2 == (g.all@[k].name@ == g.now@)
                },
        decreases g.all.len() - j,
    {
        let n = &g.all[j];
        let id = proxy_item_id(g.name.as_str(), n.name.as_str());
        let checked = str_eq(n.name.as_str(), g.now.as_str());
        nodes.push((id, n.name.clone(), checked));
        j += 1;
    }
    GroupMenu { name: g.name.clone(), nodes }
}

/// The tray menu for the proxy groups and whether the proxy is connected:
/// show, separator, connect/disconnect, separator, the proxies submenu and a
/// separator when a selector group has members, the two mode items, a
/// separator, restart core, quit without the core, quit.
pub fn build_menu(groups: &Vec<ProxyGroup>, connected: bool) -> (r: Vec<MenuEntry>)
    ensures
        ({
            let sel = selector_groups(groups@);
            let off: int = if sel.len() > 0 { 2 } else { 0 };
            &&& r@.len() == 10 + off
            &&& item_v(r@[0]) == Some(("show"@, "tray.show"@))
            &&& r@[1] is Separator
            &&& item_v(r@[2]) == Some(("toggle-proxy"@, if connected { "tray.disconnect"@ } else { "tray.connect"@ }))
            &&& r@[3] is Separator
            &&& (sel.len() > 0 ==> proxies_match(r@[4], sel))
            &&& (sel.len() > 0 ==> r@[5] is Separator)
            &&& item_v(r@[4 + off]) == Some(("mode-rule"@, "tray.modeRule"@))
            &&& item_v(r@[5 + off]) == Some(("mode-global"@, "tray.modeGlobal"@))
            &&& r@[6 + off] is Separator
            &&& item_v(r@[7 + off]) == Some(("restart-core"@, "tray.restartCore"@))
            &&& item_v(r@[8 + off]) == Some(("quit-no-core"@, "tray.quitNoCore"@))
            &&& item_v(r@[9 + off]) == Some(("quit"@, "tray.quit"@))
        }),
{
    let mut out: Vec<MenuEntry> = Vec::new();
    out.push(item("show", "tray.show"));
    out.push(MenuEntry::Separator);
    out.push(item("toggle-proxy", if connected { "tray.disconnect" } else { "tray.connect" }));
    out.push(MenuEntry::Separator);
    let mut menus: Vec<GroupMenu> = Vec::new();
    let ghost gv = groups@;
    let mut i: usize = 0;
    assert(selector_groups(gv.subrange(0, 0)) =~= Seq::<ProxyGroup>::empty());
    while i < groups.len()
        invariant
            i <= groups.len(),
            gv == groups@,
            menus@.len() == selector_groups(gv.subrange(0, i as int)).len(),
            forall|j: int|
                0 <= j < menus@.len() ==> group_menu_matches(#[trigger] menus@[j], selector_groups(gv.subrange(0, i as int))[j]),
        decreases groups.len() - i,
    {
        assert(gv.subrange(0, i + 1).drop_last() =~= gv.subrange(0, i as int));
        let g = &groups[i];
        if str_eq(g.kind.as_str(), "Selector") && g.all.len() > 0 {
            let m = group_menu(g);
            menus.push(m);
        }
        i += 1;
    }
    assert(gv.subrange(0, groups.len() as int) =~= gv);
    let has = menus.len() > 0;
    if has {
        out.push(MenuEntry::Proxies(menus));
        out.push(MenuEntry::Separator);
    }
    out.push(item("mode-rule", "tray.modeRule"));
    out.push(item("mode-global", "tray.modeGlobal"));
    out.push(MenuEntry::Separator);
    out.push(item("restart-core", "tray.restartCore"));
    out.push(item("quit-no-core", "tray.quitNoCore"));
    out.push(item("quit", "tray.quit"));
    out
}

} // verus!
