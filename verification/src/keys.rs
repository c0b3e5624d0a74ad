use vstd::prelude::*;

use crate::json::{as_str, get, Json, JsonV};
use crate::text::{
    cat, decimal, decimal_u128, from_chars, join, join_strings, own, parse_int, slice_range,
    split_char, split_str, starts_with, starts_with_str, str_eq, to_chars, trim, trim_str,
};

verus! {

pub open spec fn is_ascii_alpha(c: char) -> bool {
    ('a' <= c <= 'z') || ('A' <= c <= 'Z')
}

pub open spec fn ascii_upper(c: char) -> char {
    if 'a' <= c <= 'z' {
        ((c as u32) - 32) as char
    } else {
        c
    }
}

/// The W3C code name of a punctuation key.
pub open spec fn punct_code(c: char) -> Option<Seq<char>> {
    if c == '-' {
        Some("Minus"@)
    } else if c == '=' {
        Some("Equal"@)
    } else if c == '[' {
        Some("BracketLeft"@)
    } else if c == ']' {
        Some("BracketRight"@)
    } else if c == ';' {
        Some("Semicolon"@)
    } else if c == '\'' {
        Some("Quote"@)
    } else if c == ',' {
        Some("Comma"@)
    } else if c == '.' {
        Some("Period"@)
    } else if c == '/' {
        Some("Slash"@)
    } else if c == '`' {
        Some("Backquote"@)
    } else if c == '\\' {
        Some("Backslash"@)
    } else {
        None
    }
}

/// The code name of a named key.
pub open spec fn named_code(key: Seq<char>) -> Option<Seq<char>> {
    if key == "space"@ {
        Some("Space"@)
    } else if key == "enter"@ {
        Some("Enter"@)
    } else if key == "tab"@ {
        Some("Tab"@)
    } else if key == "up"@ {
        Some("ArrowUp"@)
    } else if key == "down"@ {
        Some("ArrowDown"@)
    } else if key == "left"@ {
        Some("ArrowLeft"@)
    } else if key == "right"@ {
        Some("ArrowRight"@)
    } else if key == "home"@ {
        Some("Home"@)
    } else if key == "end"@ {
        Some("End"@)
    } else if key == "pageup"@ {
        Some("PageUp"@)
    } else if key == "pagedown"@ {
        Some("PageDown"@)
    } else if key == "insert"@ {
        Some("Insert"@)
    } else {
        None
    }
}

/// The unsigned number up to `max` a text spells the way `str::parse` reads
/// an unsigned integer (an optional `+`, then digits).
pub open spec fn parse_uint(s: Seq<char>, max: int) -> Option<int> {
    if s.len() > 0 && s[0] == '-' {
        None
    } else {
        match parse_int(s) {
            Some(n) => if 0 <= n <= max {
                Some(n)
            } else {
                None
            },
            None => None,
        }
    }
}

/// The `u8` a text spells (`str::parse::<u8>`).
pub open spec fn parse_u8(s: Seq<char>) -> Option<int> {
    parse_uint(s, 255)
}

/// `F1` to `F24` for a key `f<n>` / `F<n>`.
pub open spec fn function_code(key: Seq<char>) -> Option<Seq<char>> {
    if key.len() > 0 && (key[0] == 'f' || key[0] == 'F') {
        match parse_u8(key.drop_first()) {
            Some(n) => if 1 <= n <= 24 {
                Some("F"@ + decimal(n as nat))
            } else {
                None
            },
            None => None,
        }
    } else {
        None
    }
}

/// The W3C code name of a logical key (`t` → `KeyT`, `1` → `Digit1`, `f5` →
/// `F5`, `-` → `Minus`, `space` → `Space`), if it has one.
pub open spec fn key_code_v(key: Seq<char>) -> Option<Seq<char>> {
    if key.len() == 1 && (key[0] as u32) < 128 {
        let c = key[0];
        if is_ascii_alpha(c) {
            Some("Key"@.push(ascii_upper(c)))
        } else if '0' <= c <= '9' {
            Some("Digit"@.push(c))
        } else {
            punct_code(c)
        }
    } else {
        match function_code(key) {
            Some(f) => Some(f),
            None => named_code(key),
        }
    }
}

fn punct_code_exec(c: char) -> (r: Option<String>)
    ensures
        match r {
            Some(s) => punct_code(c) == Some(s@),
            None => punct_code(c) is None,
        },
{
    let name = if c == '-' {
        "Minus"
    } else if c == '=' {
        "Equal"
    } else if c == '[' {
        "BracketLeft"
    } else if c == ']' {
        "BracketRight"
    } else if c == ';' {
        "Semicolon"
    } else if c == '\'' {
        "Quote"
    } else if c == ',' {
        "Comma"
    } else if c == '.' {
        "Period"
    } else if c == '/' {
        "Slash"
    } else if c == '`' {
        "Backquote"
    } else if c == '\\' {
        "Backslash"
    } else {
        return None;
    };
    Some(own(name))
}

fn named_code_exec(key: &str) -> (r: Option<String>)
    ensures
        match r {
            Some(s) => named_code(key@) == Some(s@),
            None => named_code(key@) is None,
        },
{
    let name = if str_eq(key, "space") {
        "Space"
    } else if str_eq(key, "enter") {
        "Enter"
    } else if str_eq(key, "tab") {
        "Tab"
    } else if str_eq(key, "up") {
        "ArrowUp"
    } else if str_eq(key, "down") {
        "ArrowDown"
    } else if str_eq(key, "left") {
        "ArrowLeft"
    } else if str_eq(key, "right") {
        "ArrowRight"
    } else if str_eq(key, "home") {
        "Home"
    } else if str_eq(key, "end") {
        "End"
    } else if str_eq(key, "pageup") {
        "PageUp"
    } else if str_eq(key, "pagedown") {
        "PageDown"
    } else if str_eq(key, "insert") {
        "Insert"
    } else {
        return None;
    };
    Some(own(name))
}

/// Reads an unsigned number up to `max` the way `str::parse` does.
pub fn parse_uint_chars(s: &[char], max: u32) -> (r: Option<u32>)
    ensures
        match r {
            Some(n) => parse_uint(s@, max as int) == Some(n as int),
            None => parse_uint(s@, max as int) is None,
        },
{
    if s.len() > 0 && s[0] == '-' {
        return None;
    }
    let start: usize = if s.len() > 0 && s[0] == '+' {
        1
    } else {
        0
    };
    if start == s.len() {
        assert(parse_int(s@) is None);
        return None;
    }
    let ghost d = s@.subrange(start as int, s@.len() as int);
    let mut acc: u64 = 0;
    let mut i = start;
    while i < s.len()
        invariant
            start <= i <= s.len(),
            start < s.len(),
            start == (if s@[0] == '+' { 1usize } else { 0usize }),
            s@[0] != '-',
            d == s@.subrange(start as int, s@.len() as int),
            crate::text::all_digits(d.subrange(0, i - start)),
            acc == crate::text::digits_value(d.subrange(0, i - start)),
            acc <= max,
        decreases s.len() - i,
    {
        let c = s[i];
        if !('0' <= c && c <= '9') {
            proof {
                assert(d[i - start] == c);
                assert(!crate::text::all_digits(d));
                if s@[0] == '+' {
                    assert(d =~= s@.subrange(1, s@.len() as int));
                } else {
                    assert(d =~= s@);
                }
            }
            return None;
        }
        let ghost pre = d.subrange(0, i - start + 1);
        proof {
            assert(pre.drop_last() =~= d.subrange(0, i - start));
            assert(pre.last() == c);
            assert forall|k: int| 0 <= k < pre.len() implies crate::text::is_digit(#[trigger] pre[k]) by {
                if k < pre.len() - 1 {
                    assert(pre[k] == d.subrange(0, i - start)[k]);
                }
            }
        }
        let next = acc * 10 + (c as u32 - '0' as u32) as u64;
        if next > max as u64 {
            // every further digit only grows the value
            proof {
                lemma_digits_grow(d, i - start + 1);
                if s@[0] == '+' {
                    assert(d =~= s@.subrange(1, s@.len() as int));
                } else {
                    assert(d =~= s@);
                }
            }
            return None;
        }
        acc = next;
        i += 1;
    }
    proof {
        assert(d.subrange(0, s.len() - start) =~= d);
        if s@[0] == '+' {
            assert(d =~= s@.subrange(1, s@.len() as int));
        } else {
            assert(d =~= s@);
        }
    }
    Some(acc as u32)
}

/// A number spelled by a prefix never exceeds what the whole digits spell.
pub proof fn lemma_digits_grow(d: Seq<char>, k: int)
    requires
        0 <= k <= d.len(),
        crate::text::all_digits(d.subrange(0, k)),
    ensures
        crate::text::all_digits(d) ==> crate::text::digits_value(d) >= crate::text::digits_value(
            d.subrange(0, k),
        ),
    decreases d.len() - k,
{
    if k < d.len() {
        if crate::text::all_digits(d) {
            let p = d.subrange(0, k + 1);
            assert(p.drop_last() =~= d.subrange(0, k));
            assert(crate::text::is_digit(d[k]));
            crate::text::lemma_digits_value_nonneg(d.subrange(0, k));
            assert(crate::text::digits_value(p) == crate::text::digits_value(d.subrange(0, k)) * 10
                + crate::text::digit_value(p.last()));
            assert forall|j: int| 0 <= j < p.len() implies crate::text::is_digit(#[trigger] p[j]) by {
                assert(p[j] == d[j]);
            }
            lemma_digits_grow(d, k + 1);
        }
    } else {
        assert(d.subrange(0, k) =~= d);
    }
}

/// Maps a logical key (e.g. `t`, `1`, `f5`, `-`) to its W3C code name
/// (`KeyT`, `Digit1`, `F5`, `Minus`).
pub fn key_to_code(key: &str) -> (r: Option<String>)
    ensures
        match r {
            Some(s) => key_code_v(key@) == Some(s@),
            None => key_code_v(key@) is None,
        },
{
    let cs = to_chars(key);
    if cs.len() == 1 && (cs[0] as u32) < 128 {
        let c = cs[0];
        if ('a' <= c && c <= 'z') || ('A' <= c && c <= 'Z') {
            let up = if 'a' <= c && c <= 'z' {
                let b: u8 = ((c as u32) - 32) as u8;
                b as char
            } else {
                c
            };
            let mut s = own("Key");
            let ghost s0 = s@;
            s.push(up);
            proof {
                reveal_strlit("Key");
            }
            return Some(s);
        }
        if '0' <= c && c <= '9' {
            let mut s = own("Digit");
            s.push(c);
            return Some(s);
        }
        return punct_code_exec(c);
    }
    if cs.len() > 0 && (cs[0] == 'f' || cs[0] == 'F') {
        let rest = slice_range(&cs, 1, cs.len());
        assert(rest@ =~= key@.drop_first());
        match parse_uint_chars(&rest, 255) {
            Some(n) => {
                if 1 <= n && n <= 24 {
                    return Some(cat("F", decimal_u128(n as u128).as_str()));
                }
            },
            None => {},
        }
    }
    named_code_exec(key)
}

/// `Ctrl+`, `Alt+`, `Shift+`, `Super+` for the modifiers held, in that order.
pub open spec fn modifier_prefix(control: bool, alt: bool, shift: bool, platform: bool) -> Seq<char> {
    (if control {
        "Ctrl+"@
    } else {
        Seq::empty()
    }) + (if alt {
        "Alt+"@
    } else {
        Seq::empty()
    }) + (if shift {
        "Shift+"@
    } else {
        Seq::empty()
    }) + (if platform {
        "Super+"@
    } else {
        Seq::empty()
    })
}

/// A keystroke (its logical key and the modifiers held) as a global-hotkey
/// accelerator such as `Ctrl+Shift+KeyT`, or `None` when the key has no code.
pub fn keystroke_to_accel(key: &str, control: bool, alt: bool, shift: bool, platform: bool) -> (r: Option<String>)
    ensures
        match r {
            Some(s) => key_code_v(key@) is Some && s@ == modifier_prefix(control, alt, shift, platform)
                + key_code_v(key@)->0,
            None => key_code_v(key@) is None,
        },
{
    let code = match key_to_code(key) {
        Some(c) => c,
        None => return None,
    };
    let mut accel = String::new();
    proof {
        reveal_strlit("Ctrl+");
        reveal_strlit("Alt+");
        reveal_strlit("Shift+");
        reveal_strlit("Super+");
    }
    if control {
        accel.push_str("Ctrl+");
    }
    if alt {
        accel.push_str("Alt+");
    }
    if shift {
        accel.push_str("Shift+");
    }
    if platform {
        accel.push_str("Super+");
    }
    assert(accel@ =~= modifier_prefix(control, alt, shift, platform));
    accel.push_str(code.as_str());
    Some(accel)
}

/// One accelerator part as shown: `KeyT` → `T`, `Digit1` → `1`, `Super` →
/// `Win` on Windows.
pub open spec fn pretty_part(p: Seq<char>, windows: bool) -> Seq<char> {
    if starts_with(p, "Key"@) {
        p.subrange(3, p.len() as int)
    } else if starts_with(p, "Digit"@) {
        p.subrange(5, p.len() as int)
    } else if p == "Super"@ {
        if windows {
            "Win"@
        } else {
            "Super"@
        }
    } else {
        p
    }
}

fn pretty_part_exec(p: &str, windows: bool) -> (r: String)
    ensures
        r@ == pretty_part(p@, windows),
{
    proof {
        reveal_strlit("Key");
        reveal_strlit("Digit");
    }
    if starts_with_str(p, "Key") {
        let cs = to_chars(p);
        let t = slice_range(&cs, 3, cs.len());
        from_chars(&t)
    } else if starts_with_str(p, "Digit") {
        let cs = to_chars(p);
        let t = slice_range(&cs, 5, cs.len());
        from_chars(&t)
    } else if str_eq(p, "Super") {
        if windows {
            own("Win")
        } else {
            own("Super")
        }
    } else {
        own(p)
    }
}

/// An accelerator as shown to the user (`Ctrl+Shift+KeyT` → `Ctrl+Shift+T`);
/// `windows` tells whether the platform calls the super key `Win`.
pub fn pretty_accel(accel: &str, windows: bool) -> (r: String)
    ensures
        r@ == join(split_char(accel@, '+').map_values(|p: Seq<char>| pretty_part(p, windows)), "+"@),
{
    let parts = split_str(accel, '+');
    let ghost pv = parts@.map_values(|s: String| s@);
    let mut out: Vec<String> = Vec::new();
    let mut i: usize = 0;
    while i < parts.len()
        invariant
            i <= parts.len(),
            pv == parts@.map_values(|s: String| s@),
            out@.map_values(|s: String| s@) == pv.subrange(0, i as int).map_values(
                |p: Seq<char>| pretty_part(p, windows),
            ),
        decreases parts.len() - i,
    {
        let x = pretty_part_exec(parts[i].as_str(), windows);
        let ghost before = out@;
        assert(pv[i as int] == parts@[i as int]@);
        out.push(x);
        assert(out@.map_values(|s: String| s@) =~= before.map_values(|s: String| s@).push(x@));
        assert(pv.subrange(0, i + 1).map_values(|p: Seq<char>| pretty_part(p, windows)) =~= pv.subrange(
            0,
            i as int,
        ).map_values(|p: Seq<char>| pretty_part(p, windows)).push(pretty_part(pv[i as int], windows)));
        assert(out@.map_values(|s: String| s@) =~= pv.subrange(0, i + 1).map_values(
            |p: Seq<char>| pretty_part(p, windows),
        ));
        i += 1;
    }
    assert(pv.subrange(0, parts.len() as int) =~= pv);
    join_strings(&out, "+")
}

/// What a global hotkey does.
#[derive(PartialEq, Eq, Structural, Clone, Copy, Debug)]
pub enum HotkeyAction {
    ToggleWindow,
    ToggleSysProxy,
    ToggleTun,
    RuleMode,
    GlobalMode,
    DirectMode,
    RestartApp,
    QuitWithoutCore,
}

/// The app-config keys of the hotkeys with their actions, in binding order.
pub open spec fn binding_keys() -> Seq<(Seq<char>, HotkeyAction)> {
    seq![
        ("showWindowShortcut"@, HotkeyAction::ToggleWindow),
        ("triggerSysProxyShortcut"@, HotkeyAction::ToggleSysProxy),
        ("triggerTunShortcut"@, HotkeyAction::ToggleTun),
        ("ruleModeShortcut"@, HotkeyAction::RuleMode),
        ("globalModeShortcut"@, HotkeyAction::GlobalMode),
        ("directModeShortcut"@, HotkeyAction::DirectMode),
        ("restartAppShortcut"@, HotkeyAction::RestartApp),
        ("quitWithoutCoreShortcut"@, HotkeyAction::QuitWithoutCore),
    ]
}

/// The accelerator configured under `key` (trimmed), when non-empty.
pub open spec fn configured_accel(cfg: JsonV, key: Seq<char>) -> Option<Seq<char>> {
    match as_str(get(cfg, key)) {
        Some(s) => if trim(s).len() > 0 {
            Some(trim(s))
        } else {
            None
        },
        None => None,
    }
}

/// The configured hotkeys, in binding order.
pub open spec fn bindings_v(cfg: JsonV, n: nat) -> Seq<(Seq<char>, HotkeyAction)>
    decreases n,
{
    if n == 0 {
        Seq::empty()
    } else {
        let rest = bindings_v(cfg, (n - 1) as nat);
        let (k, a) = binding_keys()[n - 1];
        match configured_accel(cfg, k) {
            Some(acc) => rest.push((acc, a)),
            None => rest,
        }
    }
}

fn binding_key(i: usize) -> (r: (&'static str, HotkeyAction))
    requires
        i < 8,
    ensures
        r.0@ == binding_keys()[i as int].0,
        r.1 == binding_keys()[i as int].1,
{
    if i == 0 {
        ("showWindowShortcut", HotkeyAction::ToggleWindow)
    } else if i == 1 {
        ("triggerSysProxyShortcut", HotkeyAction::ToggleSysProxy)
    } else if i == 2 {
        ("triggerTunShortcut", HotkeyAction::ToggleTun)
    } else if i == 3 {
        ("ruleModeShortcut", HotkeyAction::RuleMode)
    } else if i == 4 {
        ("globalModeShortcut", HotkeyAction::GlobalMode)
    } else if i == 5 {
        ("directModeShortcut", HotkeyAction::DirectMode)
    } else if i == 6 {
        ("restartAppShortcut", HotkeyAction::RestartApp)
    } else {
        ("quitWithoutCoreShortcut", HotkeyAction::QuitWithoutCore)
    }
}

/// The hotkeys the app config asks for: `(accelerator, action)` for each
/// binding whose shortcut is set, in binding order.
pub fn hotkey_bindings(cfg: &Json) -> (r: Vec<(String, HotkeyAction)>)
    ensures
        r@.map_values(|x: (String, HotkeyAction)| (x.0@, x.1)) == bindings_v(cfg@, 8),
{
    let mut out: Vec<(String, HotkeyAction)> = Vec::new();
    let mut i: usize = 0;
    assert(out@.map_values(|x: (String, HotkeyAction)| (x.0@, x.1)) =~= bindings_v(cfg@, 0));
    while i < 8
        invariant
            i <= 8,
            out@.map_values(|x: (String, HotkeyAction)| (x.0@, x.1)) == bindings_v(cfg@, i as nat),
        decreases 8 - i,
    {
        let (k, a) = binding_key(i);
        let ghost before = out@;
        match cfg.get(k) {
            Some(v) => match v.as_str() {
                Some(s) => {
                    let t = trim_str(s);
                    if !t.as_str().is_empty() {
                        out.push((t, a));
                        assert(out@.map_values(|x: (String, HotkeyAction)| (x.0@, x.1)) =~= before.map_values(
                            |x: (String, HotkeyAction)| (x.0@, x.1),
                        ).push((t@, a)));
                    }
                },
                None => {},
            },
            None => {},
        }
        i += 1;
    }
    out
}

/// Law: every hotkey whose shortcut is set (non-blank) is bound, to its
/// trimmed accelerator and its own action; and every binding comes from such
/// a shortcut.
pub proof fn law_hotkeys_bound(cfg: JsonV, n: nat)
    requires
        n <= 8,
    ensures
        forall|i: int|
            0 <= i < n && (#[trigger] configured_accel(cfg, binding_keys()[i].0)) is Some ==> bindings_v(
                cfg,
                n,
            ).contains((configured_accel(cfg, binding_keys()[i].0)->0, binding_keys()[i].1)),
        forall|j: int|
            #![trigger bindings_v(cfg, n)[j]]
            0 <= j < bindings_v(cfg, n).len() ==> exists|i: int|
                0 <= i < n && (#[trigger] configured_accel(cfg, binding_keys()[i].0)) is Some && bindings_v(cfg, n)[j]
                    == (configured_accel(cfg, binding_keys()[i].0)->0, binding_keys()[i].1),
    decreases n,
{
    if n > 0 {
        let m = (n - 1) as nat;
        law_hotkeys_bound(cfg, m);
        let rest = bindings_v(cfg, m);
        let b = bindings_v(cfg, n);
        let k = binding_keys()[m as int].0;
        let a = binding_keys()[m as int].1;
        assert forall|i: int|
            0 <= i < n && (#[trigger] configured_accel(cfg, binding_keys()[i].0)) is Some implies b.contains(
                (configured_accel(cfg, binding_keys()[i].0)->0, binding_keys()[i].1),
            ) by {
            if i < m {
                let e = (configured_accel(cfg, binding_keys()[i].0)->0, binding_keys()[i].1);
                let q = choose|q: int| 0 <= q < rest.len() && rest[q] == e;
                assert(b[q] == rest[q]);
            } else {
                assert(b[rest.len() as int] == (configured_accel(cfg, k)->0, a));
            }
        }
        assert forall|j: int| #![trigger b[j]] 0 <= j < b.len() implies exists|i: int|
            0 <= i < n && (#[trigger] configured_accel(cfg, binding_keys()[i].0)) is Some && b[j] == (
                configured_accel(cfg, binding_keys()[i].0)->0,
                binding_keys()[i].1,
            ) by {
            if j < rest.len() {
                assert(b[j] == rest[j]);
            } else {
                assert(configured_accel(cfg, binding_keys()[m as int].0) is Some);
            }
        }
    }
}

} // verus!
