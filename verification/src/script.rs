//! Script definitions, execution context, results, and the parsing of Mix
//! script headers and shortcut strings.
use vstd::prelude::*;

use std::collections::HashMap;

use crate::desktop::{lemma_str_lt_order, str_less, str_lt};
use crate::jmap_types::{join_path, path_join};
use crate::menu::{ascii_label, label_parts, MenuAction, MenuItem, Shortcut};
use crate::text::{
    append_chars, ascii_lower, ascii_lower_char, ascii_upper_char, is_ascii_chars, is_ws, lemma_split_on_ascii, lemma_split_on_join, trim_start, lemma_trim_ascii, chars_of, eq_chars, eq_str, has_prefix, split_chars, split_on, starts_with_str, str_lower, string_of,
    sub_vec, to_lowercase, trim, trim_vec, views, lines_of, str_lines,
};

verus! {

/// Script metadata — name, optional shortcut, description.
#[derive(Debug, Clone)]
pub struct ScriptMeta {
    /// Display name in the User menu.
    pub name: String,
    /// Optional keyboard shortcut (e.g. "Ctrl+Shift+V").
    pub shortcut: Option<String>,
    /// Human-readable description (shown in tooltip or help).
    pub description: Option<String>,
}

/// A single step in a script — sends an AMP command to a service.
#[derive(Debug, Clone)]
pub struct ScriptStep {
    /// Target service name (e.g. "view", "edit", "mon", or "edit.mko.amp" for mesh).
    pub to: String,
    /// AMP command (e.g. "view.open", "edit.get-content").
    pub command: String,
    /// JSON string with `$VAR` placeholders. Substituted at runtime.
    pub args: Option<String>,
    /// Store the response body in a named variable for subsequent steps.
    pub store: Option<String>,
}

/// A complete script definition parsed from a TOML file.
#[derive(Debug, Clone)]
pub struct ScriptDef {
    pub script: ScriptMeta,
    pub steps: Vec<ScriptStep>,
}

/// A discovered script — either a TOML step-sequence or a Mix program.
#[derive(Debug, Clone)]
pub enum Script {
    /// TOML-defined AMP step sequence.
    Toml(ScriptDef),
    /// Mix source file (its path) with metadata from comment headers.
    Mix { meta: ScriptMeta, path: String },
}

impl Script {
    /// Get the script metadata regardless of type.
    pub fn meta(&self) -> (m: &ScriptMeta)
        ensures
            *m == match self {
                Script::Toml(def) => def.script,
                Script::Mix { meta, .. } => *meta,
            },
    {
        match self {
            Script::Toml(def) => &def.script,
            Script::Mix { meta, .. } => meta,
        }
    }
}

/// Runtime context for variable substitution during script execution.
pub struct ScriptContext {
    /// App-provided variables: `$CURRENT_FILE`, `$SELECTION`, `$LINE`, etc.
    pub app_vars: HashMap<String, String>,
    /// Variables stored by previous steps via `store = "name"`.
    pub step_vars: HashMap<String, String>,
    /// The service name of the app running this script.
    pub service_name: String,
}

impl ScriptContext {
    pub fn new(service_name: &str, app_vars: HashMap<String, String>) -> (c: Self)
        ensures
            c.app_vars == app_vars,
            c.step_vars@ == Map::<String, String>::empty(),
            c.service_name@ == service_name@,
    {
        ScriptContext { app_vars, step_vars: HashMap::new(), service_name: service_name.to_owned() }
    }
}

/// Result of executing a script.
pub struct ScriptResult {
    /// AMP return code: 0=success, 5=warning, 10=error, 20=failure.
    pub rc: u8,
    /// Response body from the last successful step.
    pub body: Option<String>,
    /// Error message if execution failed.
    pub error: Option<String>,
}

// ---------------------------------------------------------------------------
// Mix script headers
// ---------------------------------------------------------------------------

/// What the comment header read so far says.
pub struct MixHeader {
    pub name: Option<Seq<char>>,
    pub shortcut: Option<Seq<char>>,
    pub description: Option<Seq<char>>,
    /// The header ended at a non-comment line.
    pub done: bool,
}

/// One line of a Mix source: `--` comment lines may carry `@script`,
/// `@shortcut` or `@description`; blank lines are skipped; any other line
/// ends the header.
pub open spec fn mix_step(h: MixHeader, line: Seq<char>) -> MixHeader {
    if h.done {
        h
    } else {
        let t = trim(line);
        if !has_prefix(t, "--"@) {
            if t.len() > 0 {
                MixHeader { done: true, ..h }
            } else {
                h
            }
        } else {
            let c = trim(t.skip(2));
            if has_prefix(c, "@script "@) {
                MixHeader { name: Some(trim(c.skip(8))), ..h }
            } else if has_prefix(c, "@shortcut "@) {
                MixHeader { shortcut: Some(trim(c.skip(10))), ..h }
            } else if has_prefix(c, "@description "@) {
                MixHeader { description: Some(trim(c.skip(13))), ..h }
            } else {
                h
            }
        }
    }
}

/// The header after the given lines.
pub open spec fn mix_scan(lines: Seq<Seq<char>>) -> MixHeader
    decreases lines.len(),
{
    if lines.len() == 0 {
        MixHeader { name: None, shortcut: None, description: None, done: false }
    } else {
        mix_step(mix_scan(lines.drop_last()), lines.last())
    }
}

/// Script metadata of a Mix source, named after `stem` (then "Untitled")
/// when no `@script` line names it.
pub open spec fn spec_mix_meta(content: Seq<char>, stem: Option<Seq<char>>) -> (Seq<char>, Option<Seq<char>>, Option<Seq<char>>) {
    let h = mix_scan(str_lines(content));
    let name = match h.name {
        Some(n) => n,
        None => match stem {
            Some(s) => s,
            None => "Untitled"@,
        },
    };
    (name, h.shortcut, h.description)
}

/// Abstract form of script metadata.
pub open spec fn meta_view(m: ScriptMeta) -> (Seq<char>, Option<Seq<char>>, Option<Seq<char>>) {
    (
        m.name@,
        match m.shortcut {
            Some(s) => Some(s@),
            None => None,
        },
        match m.description {
            Some(s) => Some(s@),
            None => None,
        },
    )
}

/// The trimmed rest of `v` after its first `k` characters, as a `String`.
fn trimmed_rest(v: &[char], k: usize) -> (r: String)
    requires
        k <= v@.len(),
    ensures
        r@ == trim(v@.skip(k as int)),
{
    let n = v.len();
    let rest = sub_vec(v, k, n);
    assert(rest@ =~= v@.skip(k as int));
    let t = trim_vec(&rest);
    string_of(&t)
}

/// Parse Mix script metadata from the comment header of its source.
///
/// Recognises `-- @script`, `-- @shortcut`, and `-- @description` directives
/// and falls back to `file_stem` (then "Untitled") as the script name.
pub fn parse_mix_meta(content: &str, file_stem: Option<String>) -> (m: ScriptMeta)
    ensures
        meta_view(m) == spec_mix_meta(
            content@,
            match file_stem {
                Some(s) => Some(s@),
                None => None,
            },
        ),
{
    let cv = chars_of(content);
    let lines = lines_of(&cv);
    let ghost lv = views(lines@);
    let mut name: Option<String> = None;
    let mut shortcut: Option<String> = None;
    let mut description: Option<String> = None;
    let mut i: usize = 0;
    assert(lv.take(lv.len() as int) =~= lv);
    while i < lines.len()
        invariant
            i <= lines@.len(),
            lv == views(lines@),
            lv.take(lv.len() as int) == lv,
            ({
                let h = mix_scan(lv.take(i as int));
                &&& !h.done
                &&& (match name { Some(s) => Some(s@), None => None }) == h.name
                &&& (match shortcut { Some(s) => Some(s@), None => None }) == h.shortcut
                &&& (match description { Some(s) => Some(s@), None => None }) == h.description
            }),
        ensures
            ({
                let h = mix_scan(lv);
                &&& (match name { Some(s) => Some(s@), None => None }) == h.name
                &&& (match shortcut { Some(s) => Some(s@), None => None }) == h.shortcut
                &&& (match description { Some(s) => Some(s@), None => None }) == h.description
            }),
        decreases lines@.len() - i,
    {
        proof {
            reveal_strlit("--");
            reveal_strlit("@script ");
            reveal_strlit("@shortcut ");
            reveal_strlit("@description ");
        }
        let ghost h0 = mix_scan(lv.take(i as int));
        assert(lv.take(i + 1).drop_last() =~= lv.take(i as int));
        assert(lv.take(i + 1).last() == lines@[i as int]@);
        assert(mix_scan(lv.take(i + 1)) == mix_step(h0, lines@[i as int]@));
        let t = trim_vec(&lines[i]);
        if !starts_with_str(&t, "--") {
            if t.len() > 0 {
                proof {
                    lemma_mix_done(lv, i as int + 1);
                }
                break;
            }
        } else {
            let c = trimmed_rest(&t, 2);
            let cv2 = chars_of(c.as_str());
            if starts_with_str(&cv2, "@script ") {
                name = Some(trimmed_rest(&cv2, 8));
            } else if starts_with_str(&cv2, "@shortcut ") {
                shortcut = Some(trimmed_rest(&cv2, 10));
            } else if starts_with_str(&cv2, "@description ") {
                description = Some(trimmed_rest(&cv2, 13));
            }
        }
        i = i + 1;
        proof {
            if i == lines@.len() {
                assert(lv.take(i as int) =~= lv);
            }
        }
    }
    let name = match name {
        Some(n) => n,
        None => match file_stem {
            Some(s) => s,
            None => "Untitled".to_owned(),
        },
    };
    ScriptMeta { name, shortcut, description }
}

/// Once the header has ended, later lines change nothing.
proof fn lemma_mix_done(lines: Seq<Seq<char>>, k: int)
    requires
        0 <= k <= lines.len(),
        mix_scan(lines.take(k)).done,
    ensures
        mix_scan(lines) == mix_scan(lines.take(k)),
    decreases lines.len() - k,
{
    if k < lines.len() {
        assert(lines.take(k + 1).drop_last() =~= lines.take(k));
        lemma_mix_done(lines, k + 1);
    } else {
        assert(lines.take(k) =~= lines);
    }
}

// ---------------------------------------------------------------------------
// Shortcut strings
// ---------------------------------------------------------------------------

/// What the parts of a shortcut string read so far say.
pub struct ShortcutAcc {
    pub ctrl: bool,
    pub shift: bool,
    pub alt: bool,
    pub key: Option<char>,
    /// A part was neither a modifier nor a single ASCII character.
    pub bad: bool,
}

/// A lower-cased part: a modifier name or a single ASCII key.
pub open spec fn shortcut_word(a: ShortcutAcc, l: Seq<char>) -> ShortcutAcc {
    if l == "ctrl"@ {
        ShortcutAcc { ctrl: true, ..a }
    } else if l == "shift"@ {
        ShortcutAcc { shift: true, ..a }
    } else if l == "alt"@ {
        ShortcutAcc { alt: true, ..a }
    } else if l.len() == 1 && (l[0] as u32) < 0x80 {
        ShortcutAcc { key: Some(l[0]), ..a }
    } else {
        ShortcutAcc { bad: true, ..a }
    }
}

/// One `+`-separated part: a modifier name or a single ASCII key, in any case.
pub open spec fn shortcut_step(a: ShortcutAcc, part: Seq<char>) -> ShortcutAcc {
    if a.bad {
        a
    } else {
        shortcut_word(a, str_lower(trim(part)))
    }
}

/// The parts read in order.
pub open spec fn shortcut_scan(parts: Seq<Seq<char>>) -> ShortcutAcc
    decreases parts.len(),
{
    if parts.len() == 0 {
        ShortcutAcc { ctrl: false, shift: false, alt: false, key: None, bad: false }
    } else {
        shortcut_step(shortcut_scan(parts.drop_last()), parts.last())
    }
}

/// The shortcut a string like "Ctrl+Shift+V" names, if it is well formed
/// and names a key.
pub open spec fn spec_parse_shortcut(s: Seq<char>) -> Option<Shortcut> {
    let a = shortcut_scan(split_on(s, '+'));
    if a.bad {
        None
    } else {
        match a.key {
            Some(k) => Some(Shortcut { ctrl: a.ctrl, shift: a.shift, alt: a.alt, key: k }),
            None => None,
        }
    }
}

/// The parts read in order, for an ASCII string, whose lower-case form is
/// the ASCII one.
pub open spec fn ascii_shortcut_scan(parts: Seq<Seq<char>>) -> ShortcutAcc
    decreases parts.len(),
{
    if parts.len() == 0 {
        ShortcutAcc { ctrl: false, shift: false, alt: false, key: None, bad: false }
    } else {
        let a = ascii_shortcut_scan(parts.drop_last());
        if a.bad {
            a
        } else {
            shortcut_word(a, ascii_lower(trim(parts.last())))
        }
    }
}

/// The shortcut an ASCII string names, if it is well formed and names a key.
pub open spec fn ascii_parse_shortcut(s: Seq<char>) -> Option<Shortcut> {
    let a = ascii_shortcut_scan(split_on(s, '+'));
    if a.bad {
        None
    } else {
        match a.key {
            Some(k) => Some(Shortcut { ctrl: a.ctrl, shift: a.shift, alt: a.alt, key: k }),
            None => None,
        }
    }
}

proof fn lemma_modifier_word(w: Seq<char>, l: Seq<char>)
    requires
        (w == "Ctrl"@ && l == "ctrl"@) || (w == "Shift"@ && l == "shift"@) || (w == "Alt"@
            && l == "alt"@),
    ensures
        ascii_lower(trim(w)) == l,
        !w.contains('+'),
{
    reveal_strlit("Ctrl");
    reveal_strlit("ctrl");
    reveal_strlit("Shift");
    reveal_strlit("shift");
    reveal_strlit("Alt");
    reveal_strlit("alt");
    assert(!is_ws(w[0]) && !is_ws(w.last()));
    assert(trim_start(w) == w);
    assert(trim(w) == w);
    assert(ascii_lower(w) =~= l);
    assert(!w.contains('+')) by {
        if w.contains('+') {
            let k = choose|k: int| 0 <= k < w.len() && w[k] == '+';
            assert(w[k] == '+');
        }
    }
}

/// A shortcut's label reads back as the same shortcut with its key
/// lower-cased, for every ASCII key other than `+` and whitespace; a key that
/// parsing can produce (not a capital letter) reads back unchanged.
pub proof fn law_shortcut_label_round_trip(s: Shortcut)
    requires
        (s.key as u32) < 0x80,
        s.key != '+',
        !is_ws(s.key),
    ensures
        ascii_parse_shortcut(ascii_label(s)) == Some(Shortcut { key: ascii_lower_char(s.key), ..s }),
        !(65 <= (s.key as u32) && (s.key as u32) <= 90) ==> ascii_parse_shortcut(ascii_label(s)) == Some(s),
{
    reveal_strlit("+");
    reveal_strlit("ctrl");
    reveal_strlit("shift");
    reveal_strlit("alt");
    let u = ascii_upper_char(s.key);
    let m1: Seq<Seq<char>> = if s.ctrl { seq!["Ctrl"@] } else { Seq::empty() };
    let m2: Seq<Seq<char>> = if s.shift { m1.push("Shift"@) } else { m1 };
    let m3: Seq<Seq<char>> = if s.alt { m2.push("Alt"@) } else { m2 };
    let parts = m3.push(seq![u]);
    assert(label_parts(s, seq![u]) =~= parts);
    lemma_modifier_word("Ctrl"@, "ctrl"@);
    lemma_modifier_word("Shift"@, "shift"@);
    lemma_modifier_word("Alt"@, "alt"@);
    assert(!seq![u].contains('+')) by {
        if seq![u].contains('+') {
            let k = choose|k: int| 0 <= k < seq![u].len() && seq![u][k] == '+';
            assert(seq![u][k] == '+');
        }
    }
    assert forall|k: int| 0 <= k < parts.len() implies !(#[trigger] parts[k]).contains('+') by {
        if k < parts.len() - 1 {
            assert(parts[k] == "Ctrl"@ || parts[k] == "Shift"@ || parts[k] == "Alt"@);
        }
    }
    assert("+"@ =~= seq!['+']);
    lemma_split_on_join(parts, '+');
    let z = ShortcutAcc { ctrl: false, shift: false, alt: false, key: None, bad: false };
    let a1 = ShortcutAcc { ctrl: s.ctrl, ..z };
    let a2 = ShortcutAcc { shift: s.shift, ..a1 };
    let a3 = ShortcutAcc { alt: s.alt, ..a2 };
    assert(ascii_shortcut_scan(Seq::<Seq<char>>::empty()) == z);
    assert(ascii_shortcut_scan(m1) == a1) by {
        if s.ctrl {
            assert(m1.drop_last() =~= Seq::<Seq<char>>::empty());
        }
    }
    assert(ascii_shortcut_scan(m2) == a2) by {
        if s.shift {
            assert(m2.drop_last() =~= m1);
        }
    }
    assert(ascii_shortcut_scan(m3) == a3) by {
        if s.alt {
            assert(m3.drop_last() =~= m2);
        }
    }
    assert(parts.drop_last() =~= m3);
    assert(trim(seq![u]) == seq![u]);
    assert(ascii_lower(seq![u]) =~= seq![ascii_lower_char(s.key)]);
}

proof fn lemma_ascii_shortcut_bad(parts: Seq<Seq<char>>, k: int)
    requires
        0 <= k <= parts.len(),
        ascii_shortcut_scan(parts.take(k)).bad,
    ensures
        ascii_shortcut_scan(parts).bad,
    decreases parts.len() - k,
{
    if k < parts.len() {
        assert(parts.take(k + 1).drop_last() =~= parts.take(k));
        lemma_ascii_shortcut_bad(parts, k + 1);
    } else {
        assert(parts.take(k) =~= parts);
    }
}

proof fn lemma_shortcut_bad(parts: Seq<Seq<char>>, k: int)
    requires
        0 <= k <= parts.len(),
        shortcut_scan(parts.take(k)).bad,
    ensures
        shortcut_scan(parts).bad,
    decreases parts.len() - k,
{
    if k < parts.len() {
        assert(parts.take(k + 1).drop_last() =~= parts.take(k));
        lemma_shortcut_bad(parts, k + 1);
    } else {
        assert(parts.take(k) =~= parts);
    }
}

/// Parse a shortcut string like "Ctrl+Shift+V" into a `Shortcut`.
pub fn parse_shortcut(s: &str) -> (r: Option<Shortcut>)
    ensures
        r == spec_parse_shortcut(s@),
        is_ascii_chars(s@) ==> r == ascii_parse_shortcut(s@),
{
    let sv = chars_of(s);
    let parts = split_chars(&sv, '+');
    let ghost pv = views(parts@);
    let mut ctrl = false;
    let mut shift = false;
    let mut alt = false;
    let mut key: Option<char> = None;
    let mut i: usize = 0;
    while i < parts.len()
        invariant
            i <= parts@.len(),
            pv == views(parts@),
            pv == split_on(s@, '+'),
            shortcut_scan(pv.take(i as int)) == (ShortcutAcc { ctrl, shift, alt, key, bad: false }),
            is_ascii_chars(s@) ==> ascii_shortcut_scan(pv.take(i as int)) == shortcut_scan(
                pv.take(i as int),
            ),
        decreases parts@.len() - i,
    {
        assert(pv.take(i + 1).drop_last() =~= pv.take(i as int));
        assert(pv.take(i + 1).last() == parts@[i as int]@);
        let t = trim_vec(&parts[i]);
        let ts = string_of(&t);
        proof {
            if is_ascii_chars(s@) {
                lemma_split_on_ascii(s@, '+');
                assert(is_ascii_chars(pv[i as int]));
                lemma_trim_ascii(pv[i as int]);
            }
        }
        let lower = to_lowercase(ts.as_str());
        let l = chars_of(lower.as_str());
        if eq_str(&l, "ctrl") {
            ctrl = true;
        } else if eq_str(&l, "shift") {
            shift = true;
        } else if eq_str(&l, "alt") {
            alt = true;
        } else if l.len() == 1 && (l[0] as u32) < 0x80 {
            key = Some(l[0]);
        } else {
            proof {
                lemma_shortcut_bad(pv, i as int + 1);
                if is_ascii_chars(s@) {
                    lemma_ascii_shortcut_bad(pv, i as int + 1);
                }
            }
            return None;
        }
        i = i + 1;
    }
    assert(pv.take(parts@.len() as int) =~= pv);
    match key {
        Some(k) => Some(Shortcut { ctrl, shift, alt, key: k }),
        None => None,
    }
}

/// The metadata of a script, whatever its kind.
pub open spec fn script_meta(s: Script) -> ScriptMeta {
    match s {
        Script::Toml(def) => def.script,
        Script::Mix { meta, .. } => meta,
    }
}

/// The User menu's entry for the script `id`: an enabled action
/// `script:{id}` under the script's name, with the script's shortcut when it
/// parses.
pub open spec fn script_item_ok(item: MenuItem, id: Seq<char>, s: Script) -> bool {
    let m = script_meta(s);
    match item {
        MenuItem::Action { id: iid, label, shortcut, action, enabled } => {
            &&& iid@ == "script:"@ + id
            &&& label@ == m.name@
            &&& enabled
            &&& (match action {
                MenuAction::Local(a) => a@ == iid@,
                _ => false,
            })
            &&& shortcut == match m.shortcut {
                Some(t) => spec_parse_shortcut(t@),
                None => None,
            }
        },
        _ => false,
    }
}

/// An enabled action `id` labelled `label`, with no shortcut, whose local
/// action is its id.
pub open spec fn plain_action_ok(item: MenuItem, id: Seq<char>, label: Seq<char>) -> bool {
    match item {
        MenuItem::Action { id: iid, label: l, shortcut, action, enabled } => {
            &&& iid@ == id
            &&& l@ == label
            &&& shortcut is None
            &&& enabled
            &&& (match action {
                MenuAction::Local(a) => a@ == id,
                _ => false,
            })
        },
        _ => false,
    }
}

/// A `String` holding `prefix` followed by `rest`.
fn prefixed_string(prefix: &str, rest: &str) -> (r: String)
    ensures
        r@ == prefix@ + rest@,
{
    let mut v = chars_of(prefix);
    append_chars(&mut v, &chars_of(rest));
    string_of(&v)
}

/// A plain enabled action whose local action is its id.
fn plain_action(id: &str, label: &str) -> (item: MenuItem)
    ensures
        plain_action_ok(item, id@, label@),
{
    MenuItem::Action {
        id: string_of(&chars_of(id)),
        label: string_of(&chars_of(label)),
        shortcut: None,
        action: MenuAction::Local(string_of(&chars_of(id))),
        enabled: true,
    }
}

/// The User menu for the discovered scripts: one action per script in
/// order, then a separator, "Reload Scripts" and "Open Scripts Folder"; an
/// empty submenu when no scripts were found.
pub fn user_menu(scripts: &Vec<(String, Script)>) -> (m: MenuItem)
    ensures
        match m {
            MenuItem::Submenu { label, items } => {
                let n = scripts@.len() as int;
                &&& label@ == "User"@
                &&& n == 0 ==> items@.len() == 0
                &&& n > 0 ==> {
                    &&& items@.len() == n + 3
                    &&& forall|i: int| 0 <= i < n ==> script_item_ok(
                        #[trigger] items@[i],
                        scripts@[i].0@,
                        scripts@[i].1,
                    )
                    &&& items@[n] is Separator
                    &&& plain_action_ok(items@[n + 1], "script:reload"@, "Reload Scripts"@)
                    &&& plain_action_ok(items@[n + 2], "script:open-folder"@, "Open Scripts Folder"@)
                }
            },
            _ => false,
        },
{
    let mut items: Vec<MenuItem> = Vec::new();
    let mut i: usize = 0;
    while i < scripts.len()
        invariant
            i <= scripts@.len(),
            items@.len() == i,
            forall|j: int| 0 <= j < i ==> script_item_ok(#[trigger] items@[j], scripts@[j].0@, scripts@[j].1),
        decreases scripts@.len() - i,
    {
        let (id, script) = &scripts[i];
        let meta = script.meta();
        let shortcut = match &meta.shortcut {
            Some(t) => parse_shortcut(t.as_str()),
            None => None,
        };
        let item = MenuItem::Action {
            id: prefixed_string("script:", id.as_str()),
            label: string_of(&chars_of(meta.name.as_str())),
            shortcut,
            action: MenuAction::Local(prefixed_string("script:", id.as_str())),
            enabled: true,
        };
        assert(script_item_ok(item, scripts@[i as int].0@, scripts@[i as int].1));
        items.push(item);
        i = i + 1;
    }
    if items.len() > 0 {
        items.push(MenuItem::Separator);
        items.push(plain_action("script:reload", "Reload Scripts"));
        items.push(plain_action("script:open-folder", "Open Scripts Folder"));
    }
    MenuItem::Submenu { label: string_of(&chars_of("User")), items }
}

/// The script id an action id names (`script:{id}`), if it names one.
pub fn script_action_id(action_id: &str) -> (r: Option<String>)
    ensures
        match r {
            Some(id) => has_prefix(action_id@, "script:"@) && id@ == action_id@.skip(7),
            None => !has_prefix(action_id@, "script:"@),
        },
{
    let v = chars_of(action_id);
    if !starts_with_str(&v, "script:") {
        return None;
    }
    proof {
        reveal_strlit("script:");
    }
    let n = v.len();
    let rest = sub_vec(&v, 7, n);
    assert(rest@ =~= action_id@.skip(7));
    Some(string_of(&rest))
}

// ---------------------------------------------------------------------------
// Discovery order
// ---------------------------------------------------------------------------

/// The scripts directory: `$XDG_CONFIG_HOME/cosmix/scripts`, else
/// `$HOME/.config/cosmix/scripts`, else `/tmp/cosmix/scripts`.
pub open spec fn spec_scripts_dir(xdg: Option<Seq<char>>, home: Option<Seq<char>>) -> Seq<char> {
    let base = match xdg {
        Some(x) => x,
        None => match home {
            Some(h) => path_join(h, ".config"@),
            None => "/tmp"@,
        },
    };
    path_join(path_join(base, "cosmix"@), "scripts"@)
}

/// The scripts directory for the given environment values.
pub fn scripts_dir(xdg: Option<String>, home: Option<String>) -> (d: String)
    ensures
        d@ == spec_scripts_dir(
            match xdg {
                Some(x) => Some(x@),
                None => None,
            },
            match home {
                Some(h) => Some(h@),
                None => None,
            },
        ),
{
    let base: Vec<char> = match xdg {
        Some(x) => chars_of(x.as_str()),
        None => match home {
            Some(h) => join_path(&chars_of(h.as_str()), &chars_of(".config")),
            None => chars_of("/tmp"),
        },
    };
    let p = join_path(&base, &chars_of("cosmix"));
    string_of(&join_path(&p, &chars_of("scripts")))
}

/// The display name of a script.
pub open spec fn script_name(s: Script) -> Seq<char> {
    match s {
        Script::Toml(def) => def.script.name@,
        Script::Mix { meta, .. } => meta.name@,
    }
}

/// Insert `x` after every script whose name does not sort after its own.
pub open spec fn insert_script(s: Seq<(String, Script)>, x: (String, Script)) -> Seq<(String, Script)>
    decreases s.len(),
{
    if s.len() == 0 || !str_lt(script_name(x.1), script_name(s.last().1)) {
        s.push(x)
    } else {
        insert_script(s.drop_last(), x).push(s.last())
    }
}

/// Stable sort of discovered scripts by name.
pub open spec fn sort_scripts_spec(s: Seq<(String, Script)>) -> Seq<(String, Script)>
    decreases s.len(),
{
    if s.len() == 0 {
        s
    } else {
        insert_script(sort_scripts_spec(s.drop_last()), s.last())
    }
}

/// No script in `s` has a name that sorts before one listed ahead of it.
pub open spec fn scripts_in_order(s: Seq<(String, Script)>) -> bool {
    forall|i: int, j: int| #![trigger s[i], s[j]] 0 <= i < j < s.len()
        ==> !str_lt(script_name(s[j].1), script_name(s[i].1))
}

proof fn lemma_insert_script_not_before(s: Seq<(String, Script)>, x: (String, Script), y: Seq<char>)
    requires
        forall|k: int| 0 <= k < s.len() ==> !str_lt(y, script_name(#[trigger] s[k].1)),
        !str_lt(y, script_name(x.1)),
    ensures
        forall|k: int| 0 <= k < insert_script(s, x).len()
            ==> !str_lt(y, script_name(#[trigger] insert_script(s, x)[k].1)),
        insert_script(s, x).len() == s.len() + 1,
    decreases s.len(),
{
    if s.len() > 0 && str_lt(script_name(x.1), script_name(s.last().1)) {
        lemma_insert_script_not_before(s.drop_last(), x, y);
    }
}

proof fn lemma_insert_script_in_order(s: Seq<(String, Script)>, x: (String, Script))
    requires
        scripts_in_order(s),
    ensures
        scripts_in_order(insert_script(s, x)),
    decreases s.len(),
{
    let xn = script_name(x.1);
    if s.len() == 0 || !str_lt(xn, script_name(s.last().1)) {
        assert forall|m: int| 0 <= m < s.len() implies !str_lt(xn, script_name(#[trigger] s[m].1)) by {
            lemma_str_lt_order(xn, script_name(s.last().1), script_name(s[m].1));
        }
    } else {
        let d = s.drop_last();
        let ln = script_name(s.last().1);
        lemma_insert_script_in_order(d, x);
        lemma_str_lt_order(xn, ln, xn);
        assert forall|k: int| 0 <= k < d.len() implies !str_lt(ln, script_name(#[trigger] d[k].1)) by {
            assert(s[k] == d[k]);
        }
        lemma_insert_script_not_before(d, x, ln);
    }
}

/// Discovered scripts come out with their names in ascending order.
pub proof fn law_scripts_sorted(s: Seq<(String, Script)>)
    ensures
        scripts_in_order(sort_scripts_spec(s)),
    decreases s.len(),
{
    if s.len() > 0 {
        law_scripts_sorted(s.drop_last());
        lemma_insert_script_in_order(sort_scripts_spec(s.drop_last()), s.last());
    }
}

proof fn lemma_insert_script_at(s: Seq<(String, Script)>, x: (String, Script), j: int)
    requires
        0 <= j <= s.len(),
        forall|m: int| j <= m < s.len() ==> str_lt(script_name(x.1), script_name(#[trigger] s[m].1)),
        j == 0 || !str_lt(script_name(x.1), script_name(s[j - 1].1)),
    ensures
        insert_script(s, x) == s.insert(j, x),
    decreases s.len() - j,
{
    if j < s.len() {
        lemma_insert_script_at(s.drop_last(), x, j);
        assert(s.drop_last().insert(j, x).push(s.last()) =~= s.insert(j, x));
    } else {
        assert(s.push(x) =~= s.insert(j, x));
    }
}

/// Sort discovered `(id, script)` pairs by script name (stably).
pub fn sort_scripts(scripts: Vec<(String, Script)>) -> (sorted: Vec<(String, Script)>)
    ensures
        sorted@ == sort_scripts_spec(scripts@),
{
    let ghost orig = scripts@;
    let n = scripts.len();
    let mut sorted: Vec<(String, Script)> = Vec::new();
    let mut rest = scripts;
    let mut i: usize = 0;
    while rest.len() > 0
        invariant
            i + rest@.len() == orig.len(),
            n == orig.len(),
            rest@ == orig.skip(i as int),
            sorted@ == sort_scripts_spec(orig.take(i as int)),
        decreases rest@.len(),
    {
        let x = rest.remove(0);
        proof {
            assert(x == orig[i as int]);
            assert(rest@ =~= orig.skip(i + 1));
        }
        let ghost sv = sorted@;
        let mut j = sorted.len();
        while j > 0 && str_less(x.1.meta().name.as_str(), sorted[j - 1].1.meta().name.as_str())
            invariant
                j <= sorted@.len(),
                sv == sorted@,
                forall|m: int| j <= m < sv.len() ==> str_lt(script_name(x.1), script_name(#[trigger] sv[m].1)),
            decreases j,
        {
            j = j - 1;
        }
        proof {
            lemma_insert_script_at(sv, x, j as int);
            assert(orig.take(i + 1).drop_last() =~= orig.take(i as int));
        }
        sorted.insert(j, x);
        i = i + 1;
    }
    assert(orig.take(i as int) =~= orig);
    sorted
}

/// The script with id `id`: the first one listed under it.
pub open spec fn script_with_id(s: Seq<(String, Script)>, id: Seq<char>) -> Option<Script>
    decreases s.len(),
{
    if s.len() == 0 {
        None
    } else if s[0].0@ == id {
        Some(s[0].1)
    } else {
        script_with_id(s.drop_first(), id)
    }
}

/// Find a discovered script by id.
pub fn find_script<'a>(scripts: &'a Vec<(String, Script)>, id: &str) -> (r: Option<&'a Script>)
    ensures
        match r {
            Some(x) => script_with_id(scripts@, id@) == Some(*x),
            None => script_with_id(scripts@, id@) is None,
        },
{
    let iv = chars_of(id);
    let mut i: usize = 0;
    assert(scripts@.skip(0) =~= scripts@);
    while i < scripts.len()
        invariant
            i <= scripts@.len(),
            iv@ == id@,
            script_with_id(scripts@, id@) == script_with_id(scripts@.skip(i as int), id@),
        decreases scripts@.len() - i,
    {
        assert(scripts@.skip(i as int)[0] == scripts@[i as int]);
        assert(scripts@.skip(i as int).drop_first() =~= scripts@.skip(i + 1));
        let v = chars_of(scripts[i].0.as_str());
        if eq_chars(&v, &iv) {
            return Some(&scripts[i].1);
        }
        i = i + 1;
    }
    None
}

} // verus!
