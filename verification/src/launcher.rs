//! Launcher helpers: GoldMapper key mappings, platform description, Wine
//! paths, the Android bridge actions and the plugin directory listing.
use vstd::prelude::*;
use crate::anvil::{owned, decimal, digit_char};
use crate::text::push_char;
use crate::sign_text::{is_ws, ws_char, chars_of};

verus! {

/// A GoldMapper input mapping: the input read and the input it stands for.
pub struct GoldMapperMapping {
    pub from: String,
    pub to: String,
}

/// A mapping as values.
pub type MappingModel = (Seq<char>, Seq<char>);

/// The values of a list of mappings.
pub open spec fn mappings_view(v: Seq<GoldMapperMapping>) -> Seq<MappingModel> {
    Seq::new(v.len(), |i: int| (v[i].from@, v[i].to@))
}

/// The controller inputs that DirectInput buttons 0 to 13 map to.
pub open spec fn controller_targets() -> Seq<Seq<char>> {
    seq!["PAD_A"@, "PAD_B"@, "PAD_X"@, "PAD_Y"@, "PAD_LB"@, "PAD_RB"@, "PAD_BACK"@, "PAD_START"@, "PAD_LTHUMB"@, "PAD_RTHUMB"@, "PAD_DPAD_UP"@, "PAD_DPAD_DOWN"@, "PAD_DPAD_LEFT"@, "PAD_DPAD_RIGHT"@]
}

/// Named keys after the letters, digits and function keys.
pub open spec fn named_keys() -> Seq<Seq<char>> {
    seq!["KEY_SPACE"@, "KEY_RETURN"@, "KEY_ESCAPE"@, "KEY_TAB"@, "KEY_BACKSPACE"@, "KEY_DELETE"@, "KEY_INSERT"@, "KEY_HOME"@, "KEY_END"@, "KEY_PAGEUP"@, "KEY_PAGEDOWN"@, "KEY_UP"@, "KEY_DOWN"@, "KEY_LEFT"@, "KEY_RIGHT"@, "KEY_PRINTSCREEN"@, "KEY_PAUSE"@, "KEY_CAPSLOCK"@, "KEY_NUMLOCK"@, "KEY_SCROLLLOCK"@, "KEY_LSHIFT"@, "KEY_RSHIFT"@, "KEY_LCTRL"@, "KEY_RCTRL"@, "KEY_LALT"@, "KEY_RALT"@, "KEY_LWIN"@, "KEY_RWIN"@, "KEY_APPS"@]
}

/// Named keys after the numpad digits.
pub open spec fn symbol_keys() -> Seq<Seq<char>> {
    seq!["KEY_MULTIPLY"@, "KEY_ADD"@, "KEY_SUBTRACT"@, "KEY_DECIMAL"@, "KEY_DIVIDE"@, "KEY_SEMICOLON"@, "KEY_EQUALS"@, "KEY_COMMA"@, "KEY_MINUS"@, "KEY_PERIOD"@, "KEY_SLASH"@, "KEY_GRAVE"@, "KEY_LBRACKET"@, "KEY_BACKSLASH"@, "KEY_RBRACKET"@, "KEY_APOSTROPHE"@]
}

/// The mouse buttons.
pub open spec fn mouse_keys() -> Seq<Seq<char>> {
    seq!["MOUSE_LEFT"@, "MOUSE_RIGHT"@, "MOUSE_MIDDLE"@]
}

/// The mappings of inputs to themselves.
pub open spec fn identity(names: Seq<Seq<char>>) -> Seq<MappingModel> {
    Seq::new(names.len(), |i: int| (names[i], names[i]))
}

/// The default mappings: every key and mouse button to itself (letters,
/// digits, F1 to F12, named keys, numpad digits, symbol keys, mouse
/// buttons), then DirectInput buttons 0 to 13 to the controller inputs.
pub open spec fn default_mapping_model() -> Seq<MappingModel> {
    let letters = Seq::new(26, |i: int| "KEY_"@.push(((65 + i) as u8) as char));
    let digits = Seq::new(10, |i: int| "KEY_"@.push(digit_char(i as nat)));
    let fkeys = Seq::new(12, |i: int| "KEY_F"@ + decimal((i + 1) as nat));
    let numpad = Seq::new(10, |i: int| "KEY_NUMPAD"@.push(digit_char(i as nat)));
    let pads = Seq::new(14, |i: int| ("DINPUT_"@ + decimal(i as nat), controller_targets()[i]));
    identity(letters) + identity(digits) + identity(fkeys) + identity(named_keys()) + identity(numpad)
        + identity(symbol_keys()) + identity(mouse_keys()) + pads
}

/// Adds the mapping of `name` to itself.
pub fn push_key(mappings: &mut Vec<GoldMapperMapping>, name: String)
    ensures
        mappings_view(final(mappings)@) == mappings_view(old(mappings)@).push((name@, name@)),
{
    let to = owned(name.as_str());
    let ghost before = mappings_view(mappings@);
    mappings.push(GoldMapperMapping { to, from: name });
    assert(mappings_view(mappings@) =~= before.push((to@, to@)));
}

fn push_names(mappings: &mut Vec<GoldMapperMapping>, names: &[&str])
    ensures
        mappings_view(final(mappings)@) == mappings_view(old(mappings)@) + identity(
            Seq::new(names@.len(), |i: int| names@[i]@),
        ),
{
    let ghost start = mappings_view(mappings@);
    let ghost ns = Seq::new(names@.len(), |i: int| names@[i]@);
    let mut i: usize = 0;
    while i < names.len()
        invariant
            i <= names@.len(),
            ns == Seq::new(names@.len(), |i: int| names@[i]@),
            mappings_view(mappings@) == start + identity(ns.take(i as int)),
        decreases names@.len() - i,
    {
        push_key(mappings, owned(names[i]));
        i += 1;
        assert(mappings_view(mappings@) =~= start + identity(ns.take(i as int)));
    }
    assert(ns.take(i as int) =~= ns);
}

fn key_with_char(prefix: &str, c: char) -> (r: String)
    ensures
        r@ == prefix@.push(c),
{
    let mut s = owned(prefix);
    push_char(&mut s, c);
    s
}

fn key_with_number(prefix: &str, n: u8) -> (r: String)
    ensures
        r@ == prefix@ + decimal(n as nat),
{
    let mut s = owned(prefix);
    let d = crate::anvil::decimal_text(n);
    for c in it: d.as_str().chars()
        invariant
            it.seq() == d@,
            s@ == prefix@ + d@.take(it.index() as int),
    {
        let ghost k = it.index();
        push_char(&mut s, c);
        assert(s@ =~= prefix@ + d@.take(k + 1));
    }
    assert(d@.take(d@.len() as int) =~= d@);
    s
}

/// The default GoldMapper mappings (see `default_mapping_model`).
pub fn default_mappings() -> (r: Vec<GoldMapperMapping>)
    ensures
        mappings_view(r@) == default_mapping_model(),
{
    let mut m: Vec<GoldMapperMapping> = Vec::new();
    let ghost letters = Seq::new(26, |i: int| "KEY_"@.push(((65 + i) as u8) as char));
    let mut b: u8 = 65;
    assert(mappings_view(m@) =~= identity(letters.take(0)));
    while b <= 90
        invariant
            65 <= b <= 91,
            letters == Seq::new(26, |i: int| "KEY_"@.push(((65 + i) as u8) as char)),
            mappings_view(m@) == identity(letters.take(b - 65)),
        decreases 91 - b,
    {
        push_key(&mut m, key_with_char("KEY_", b as char));
        b += 1;
        assert(mappings_view(m@) =~= identity(letters.take(b - 65)));
    }
    assert(letters.take(26) =~= letters);
    let ghost a0 = mappings_view(m@);
    let ghost digits = Seq::new(10, |i: int| "KEY_"@.push(digit_char(i as nat)));
    let mut n: u8 = 0;
    assert(a0 + identity(digits.take(0)) =~= a0);
    while n <= 9
        invariant
            n <= 10,
            digits == Seq::new(10, |i: int| "KEY_"@.push(digit_char(i as nat))),
            mappings_view(m@) == a0 + identity(digits.take(n as int)),
        decreases 10 - n,
    {
        push_key(&mut m, key_with_char("KEY_", ((48 + n) as u8) as char));
        n += 1;
        assert(mappings_view(m@) =~= a0 + identity(digits.take(n as int)));
    }
    assert(digits.take(10) =~= digits);
    let ghost a1 = mappings_view(m@);
    let ghost fkeys = Seq::new(12, |i: int| "KEY_F"@ + decimal((i + 1) as nat));
    let mut f: u8 = 1;
    assert(a1 + identity(fkeys.take(0)) =~= a1);
    while f <= 12
        invariant
            1 <= f <= 13,
            fkeys == Seq::new(12, |i: int| "KEY_F"@ + decimal((i + 1) as nat)),
            mappings_view(m@) == a1 + identity(fkeys.take(f - 1)),
        decreases 13 - f,
    {
        push_key(&mut m, key_with_number("KEY_F", f));
        f += 1;
        assert(mappings_view(m@) =~= a1 + identity(fkeys.take(f - 1)));
    }
    assert(fkeys.take(12) =~= fkeys);
    let named: [&str; 29] = ["KEY_SPACE", "KEY_RETURN", "KEY_ESCAPE", "KEY_TAB", "KEY_BACKSPACE", "KEY_DELETE", "KEY_INSERT", "KEY_HOME", "KEY_END", "KEY_PAGEUP", "KEY_PAGEDOWN", "KEY_UP", "KEY_DOWN", "KEY_LEFT", "KEY_RIGHT", "KEY_PRINTSCREEN", "KEY_PAUSE", "KEY_CAPSLOCK", "KEY_NUMLOCK", "KEY_SCROLLLOCK", "KEY_LSHIFT", "KEY_RSHIFT", "KEY_LCTRL", "KEY_RCTRL", "KEY_LALT", "KEY_RALT", "KEY_LWIN", "KEY_RWIN", "KEY_APPS"];
    assert(Seq::new(named@.len(), |i: int| named@[i]@) =~= named_keys());
    push_names(&mut m, &named);
    let ghost a2 = mappings_view(m@);
    let ghost numpad = Seq::new(10, |i: int| "KEY_NUMPAD"@.push(digit_char(i as nat)));
    let mut n2: u8 = 0;
    assert(a2 + identity(numpad.take(0)) =~= a2);
    while n2 <= 9
        invariant
            n2 <= 10,
            numpad == Seq::new(10, |i: int| "KEY_NUMPAD"@.push(digit_char(i as nat))),
            mappings_view(m@) == a2 + identity(numpad.take(n2 as int)),
        decreases 10 - n2,
    {
        push_key(&mut m, key_with_char("KEY_NUMPAD", ((48 + n2) as u8) as char));
        n2 += 1;
        assert(mappings_view(m@) =~= a2 + identity(numpad.take(n2 as int)));
    }
    assert(numpad.take(10) =~= numpad);
    let symbols: [&str; 16] = ["KEY_MULTIPLY", "KEY_ADD", "KEY_SUBTRACT", "KEY_DECIMAL", "KEY_DIVIDE", "KEY_SEMICOLON", "KEY_EQUALS", "KEY_COMMA", "KEY_MINUS", "KEY_PERIOD", "KEY_SLASH", "KEY_GRAVE", "KEY_LBRACKET", "KEY_BACKSLASH", "KEY_RBRACKET", "KEY_APOSTROPHE"];
    assert(Seq::new(symbols@.len(), |i: int| symbols@[i]@) =~= symbol_keys());
    push_names(&mut m, &symbols);
    let mouse: [&str; 3] = ["MOUSE_LEFT", "MOUSE_RIGHT", "MOUSE_MIDDLE"];
    assert(Seq::new(mouse@.len(), |i: int| mouse@[i]@) =~= mouse_keys());
    push_names(&mut m, &mouse);
    let targets: [&str; 14] = ["PAD_A", "PAD_B", "PAD_X", "PAD_Y", "PAD_LB", "PAD_RB", "PAD_BACK", "PAD_START", "PAD_LTHUMB", "PAD_RTHUMB", "PAD_DPAD_UP", "PAD_DPAD_DOWN", "PAD_DPAD_LEFT", "PAD_DPAD_RIGHT"];
    assert(Seq::new(targets@.len(), |i: int| targets@[i]@) =~= controller_targets());
    let ghost a3 = mappings_view(m@);
    let ghost pads = Seq::new(14, |i: int| ("DINPUT_"@ + decimal(i as nat), controller_targets()[i]));
    let mut k: usize = 0;
    assert(a3 + pads.take(0) =~= a3);
    while k < 14
        invariant
            k <= 14,
            targets@.len() == 14,
            forall|j: int| 0 <= j < 14 ==> #[trigger] targets@[j]@ == controller_targets()[j],
            pads == Seq::new(14, |i: int| ("DINPUT_"@ + decimal(i as nat), controller_targets()[i])),
            mappings_view(m@) == a3 + pads.take(k as int),
        decreases 14 - k,
    {
        let from = key_with_number("DINPUT_", k as u8);
        let to = owned(targets[k]);
        let ghost before = mappings_view(m@);
        let ghost fv = from@;
        let ghost tv = to@;
        assert(fv == pads[k as int].0 && tv == pads[k as int].1);
        m.push(GoldMapperMapping { from, to });
        assert(mappings_view(m@) =~= before.push((fv, tv)));
        assert(pads.take(k + 1) =~= pads.take(k as int).push(pads[k as int]));
        k += 1;
        assert(mappings_view(m@) =~= a3 + pads.take(k as int));
    }
    assert(pads.take(14) =~= pads);
    assert(mappings_view(m@) =~= default_mapping_model());
    m
}

// ---------------------------------------------------------------------
// Platform, paths and the Android bridge.
// ---------------------------------------------------------------------

/// The operating systems the launcher is built for.
#[derive(Clone, Copy, Debug, PartialEq, Eq, Structural)]
pub enum TargetOs {
    Linux,
    Mac,
    Windows,
    Android,
}

/// Which platform the launcher runs on.
#[derive(Clone, Copy, Debug, PartialEq, Eq, Structural)]
pub struct PlatformInfo {
    pub is_linux: bool,
    pub is_mac: bool,
    pub is_windows: bool,
    pub is_android: bool,
}

/// The platform description of `os`: exactly its flag set.
pub fn get_platform(os: TargetOs) -> (r: PlatformInfo)
    ensures
        r.is_linux == (os == TargetOs::Linux),
        r.is_mac == (os == TargetOs::Mac),
        r.is_windows == (os == TargetOs::Windows),
        r.is_android == (os == TargetOs::Android),
{
    match os {
        TargetOs::Linux => PlatformInfo { is_linux: true, is_mac: false, is_windows: false, is_android: false },
        TargetOs::Mac => PlatformInfo { is_linux: false, is_mac: true, is_windows: false, is_android: false },
        TargetOs::Windows => PlatformInfo { is_linux: false, is_mac: false, is_windows: true, is_android: false },
        TargetOs::Android => PlatformInfo { is_linux: false, is_mac: false, is_windows: false, is_android: true },
    }
}

/// A Unix path as Wine sees it on drive Z: `Z:` and the path with each `/`
/// made `\`.
pub open spec fn wine_z_path(p: Seq<char>) -> Seq<char> {
    "Z:"@ + Seq::new(p.len(), |i: int| if p[i] == '/' { '\\' } else { p[i] })
}

/// The Wine drive-Z path of a Unix path (given as its text).
pub fn unix_path_to_wine_z_path(unix_path: &str) -> (r: String)
    ensures
        r@ == wine_z_path(unix_path@),
{
    let mut out = owned("Z:");
    let ghost start = out@;
    let ghost p = unix_path@;
    for ch in it: unix_path.chars()
        invariant
            it.seq() == p,
            p == unix_path@,
            out@ == start + Seq::new(it.index() as nat, |i: int| if p[i] == '/' { '\\' } else { p[i] }),
    {
        let ghost k = it.index();
        if ch == '/' {
            push_char(&mut out, '\\');
        } else {
            push_char(&mut out, ch);
        }
        assert(out@ =~= start + Seq::new((k + 1) as nat, |i: int| if p[i] == '/' { '\\' } else { p[i] }));
    }
    out
}

/// What the Android bridge is asked to do.
#[derive(Clone, Copy, Debug, PartialEq, Eq, Structural)]
pub enum BridgeAction {
    Play,
    OpenContainer,
    OpenSettings,
}

/// The action name passed to the Android bridge activity.
pub open spec fn bridge_action_text(a: BridgeAction) -> Seq<char> {
    match a {
        BridgeAction::Play => "play"@,
        BridgeAction::OpenContainer => "open"@,
        BridgeAction::OpenSettings => "settings"@,
    }
}

/// The action name passed to the Android bridge activity.
pub fn bridge_action_name(a: BridgeAction) -> (r: &'static str)
    ensures
        r@ == bridge_action_text(a),
{
    match a {
        BridgeAction::Play => "play",
        BridgeAction::OpenContainer => "open",
        BridgeAction::OpenSettings => "settings",
    }
}

/// An entry of a directory listing.
pub struct DirEntry {
    pub name: String,
    pub is_dir: bool,
}

/// Listing arbitrary directories is disabled: every path is refused.
pub fn list_directory(path: String) -> (r: Result<Vec<DirEntry>, String>)
    ensures
        r matches Err(e) && e@ == "list_directory disabled: use get_plugins_dir instead"@,
{
    let _ = path;
    Err(owned("list_directory disabled: use get_plugins_dir instead"))
}

// ---------------------------------------------------------------------
// GoldMapper and runner command lines, captured game output.
// ---------------------------------------------------------------------

/// A path as the game sees it: its Wine drive-Z form where the game runs
/// under Wine, else as it is.
pub open spec fn game_path(p: Seq<char>, wine: bool) -> Seq<char> {
    if wine {
        wine_z_path(p)
    } else {
        p
    }
}

/// The GoldMapper command line: the GoldMapper launcher, its config file
/// and the game (as the game sees them), then the extra arguments.
pub open spec fn goldmapper_command(
    launcher: Seq<char>,
    config: Seq<char>,
    game_exe: Seq<char>,
    extra: Seq<Seq<char>>,
    wine: bool,
) -> Seq<Seq<char>> {
    seq![game_path(launcher, wine), game_path(config, wine), game_path(game_exe, wine)] + extra
}

fn game_path_text(p: &str, wine: bool) -> (r: String)
    ensures
        r@ == game_path(p@, wine),
{
    if wine {
        unix_path_to_wine_z_path(p)
    } else {
        owned(p)
    }
}

fn push_copies(out: &mut Vec<String>, extra: &[String])
    ensures
        strings_view(final(out)@) == strings_view(old(out)@) + strings_view(extra@),
{
    let ghost start = strings_view(out@);
    let ghost ev = strings_view(extra@);
    let mut i: usize = 0;
    assert(ev.take(0) =~= Seq::<Seq<char>>::empty());
    assert(strings_view(out@) =~= start + ev.take(0));
    while i < extra.len()
        invariant
            i <= extra@.len(),
            ev == strings_view(extra@),
            strings_view(out@) == start + ev.take(i as int),
        decreases extra@.len() - i,
    {
        let ghost before = strings_view(out@);
        let t = owned(extra[i].as_str());
        out.push(t);
        assert(strings_view(out@) =~= before.push(ev[i as int]));
        i += 1;
        assert(start + ev.take(i as int) =~= (start + ev.take(i - 1)).push(ev[i - 1]));
    }
    assert(ev.take(i as int) =~= ev);
}

/// The arguments that start the game through GoldMapper (see
/// `goldmapper_command`).
pub fn goldmapper_args(launcher: &str, config: &str, game_exe: &str, extra: &[String], wine: bool) -> (r: Vec<String>)
    ensures
        strings_view(r@) == goldmapper_command(launcher@, config@, game_exe@, strings_view(extra@), wine),
{
    let mut out: Vec<String> = Vec::new();
    let a = game_path_text(launcher, wine);
    let b = game_path_text(config, wine);
    let c = game_path_text(game_exe, wine);
    out.push(a);
    out.push(b);
    out.push(c);
    let ghost head = strings_view(out@);
    assert(head =~= seq![a@, b@, c@]);
    push_copies(&mut out, extra);
    out
}

/// The command that runs the game with a Linux runner, before any launch
/// prefix: the runner program (under `mangohud` where that is on), `run`
/// for Proton, the game, the extra arguments.
pub open spec fn runner_command_model(
    program: Seq<char>,
    is_proton: bool,
    mangohud: bool,
    game_exe: Seq<char>,
    extra: Seq<Seq<char>>,
) -> (Seq<char>, Seq<Seq<char>>) {
    let head: Seq<Seq<char>> = if mangohud {
        seq![program]
    } else {
        seq![]
    };
    let run: Seq<Seq<char>> = if is_proton {
        seq!["run"@]
    } else {
        seq![]
    };
    (if mangohud { "mangohud"@ } else { program }, head + run + seq![game_exe] + extra)
}

/// The Linux runner command (see `runner_command_model`).
pub fn runner_command(program: &str, is_proton: bool, mangohud: bool, game_exe: &str, extra: &[String]) -> (r: (String, Vec<String>))
    ensures
        (r.0@, strings_view(r.1@)) == runner_command_model(program@, is_proton, mangohud, game_exe@, strings_view(extra@)),
{
    let mut args: Vec<String> = Vec::new();
    if mangohud {
        args.push(owned(program));
    }
    if is_proton {
        args.push(owned("run"));
    }
    args.push(owned(game_exe));
    let ghost head = strings_view(args@);
    assert(head =~= (if mangohud { seq![program@] } else { Seq::<Seq<char>>::empty() }) + (if is_proton {
        seq!["run"@]
    } else {
        Seq::<Seq<char>>::empty()
    }) + seq![game_exe@]);
    push_copies(&mut args, extra);
    let prog = if mangohud {
        owned("mangohud")
    } else {
        owned(program)
    };
    (prog, args)
}

/// The most bytes of game output kept.
pub const MAX_LOG_BYTES: usize = 1048576;

/// The last `max` bytes of `b` (all of it where it is shorter).
pub open spec fn tail_bytes(b: Seq<u8>, max: nat) -> Seq<u8> {
    if b.len() > max {
        b.skip(b.len() - max)
    } else {
        b
    }
}

/// Adds a chunk of game output to the captured log, keeping only its last
/// `MAX_LOG_BYTES` bytes.
pub fn append_log(log: &mut Vec<u8>, chunk: &[u8])
    ensures
        final(log)@ == tail_bytes(old(log)@ + chunk@, MAX_LOG_BYTES as nat),
{
    let ghost all = old(log)@ + chunk@;
    let mut i: usize = 0;
    let ghost start = log@;
    while i < chunk.len()
        invariant
            i <= chunk@.len(),
            all == start + chunk@,
            log@ == start + chunk@.take(i as int),
        decreases chunk@.len() - i,
    {
        log.push(chunk[i]);
        i += 1;
        assert(log@ =~= start + chunk@.take(i as int));
    }
    assert(chunk@.take(i as int) =~= chunk@);
    let n = log.len();
    if n > MAX_LOG_BYTES {
        let from = n - MAX_LOG_BYTES;
        let mut kept: Vec<u8> = Vec::new();
        let mut j: usize = from;
        while j < n
            invariant
                from <= j <= n,
                n == log@.len(),
                kept@ == log@.subrange(from as int, j as int),
            decreases n - j,
        {
            kept.push(log[j]);
            j += 1;
            assert(kept@ =~= log@.subrange(from as int, j as int));
        }
        assert(kept@ =~= all.skip(all.len() - MAX_LOG_BYTES));
        *log = kept;
    }
}

// ---------------------------------------------------------------------
// Launch commands.
// ---------------------------------------------------------------------

/// The whitespace-separated words of `cs`, in order.
pub open spec fn words(cs: Seq<char>) -> Seq<Seq<char>>
    decreases cs.len(),
{
    if cs.len() == 0 {
        seq![]
    } else {
        let rest = words(cs.drop_first());
        if is_ws(cs[0]) {
            rest
        } else if cs.len() > 1 && !is_ws(cs[1]) {
            rest.update(0, seq![cs[0]] + rest[0])
        } else {
            seq![seq![cs[0]]] + rest
        }
    }
}

/// The program and arguments to run: with a launch prefix that has words,
/// its first word runs with its other words, the program and the
/// arguments; otherwise the program runs with the arguments.
pub open spec fn prefixed_command(program: Seq<char>, args: Seq<Seq<char>>, prefix: Option<Seq<char>>) -> (Seq<char>, Seq<Seq<char>>) {
    match prefix {
        Some(p) => {
            let w = words(p);
            if w.len() > 0 {
                (w[0], w.drop_first() + seq![program] + args)
            } else {
                (program, args)
            }
        },
        None => (program, args),
    }
}

/// The texts of a list of strings.
pub open spec fn strings_view(v: Seq<String>) -> Seq<Seq<char>> {
    Seq::new(v.len(), |i: int| v[i]@)
}

proof fn lemma_words_nonempty(cs: Seq<char>)
    requires
        cs.len() > 0,
        !is_ws(cs[0]),
    ensures
        words(cs).len() > 0,
    decreases cs.len(),
{
    if cs.len() > 1 && !is_ws(cs[1]) {
        lemma_words_nonempty(cs.drop_first());
    }
}

/// The words of `cs[i..]` where `cur` is the word being read before `i`.
pub open spec fn words_with(cs: Seq<char>, i: int, cur: Seq<char>) -> Seq<Seq<char>> {
    if cur.len() == 0 {
        words(cs.skip(i))
    } else if i < cs.len() && !is_ws(cs[i]) {
        { let w = words(cs.skip(i)); w.update(0, cur + w[0]) }
    } else {
        seq![cur] + words(cs.skip(i))
    }
}

fn split_words(s: &str) -> (r: Vec<String>)
    ensures
        strings_view(r@) == words(s@),
{
    let cs = chars_of(s);
    words_of_chars(&cs)
}

/// The whitespace-separated words of a character sequence.
pub(crate) fn words_of_chars(cs: &Vec<char>) -> (r: Vec<String>)
    ensures
        strings_view(r@) == words(cs@),
{
    let ghost c = cs@;
    let mut out: Vec<String> = Vec::new();
    let mut cur = String::new();
    let mut i: usize = 0;
    assert(c.skip(0) =~= c);
    while i < cs.len()
        invariant
            i <= c.len(),
            c == cs@,
            cur@.len() > 0 ==> i > 0 && !is_ws(c[i - 1]),
            words(c) == strings_view(out@) + words_with(c, i as int, cur@),
        decreases c.len() - i,
    {
        let ch = cs[i];
        let ghost before_out = strings_view(out@);
        let ghost before_cur = cur@;
        proof {
            assert(c.skip(i as int)[0] == ch);
            assert(c.skip(i as int).drop_first() =~= c.skip(i + 1));
            if i + 1 < c.len() {
                assert(c.skip(i as int)[1] == c[i + 1]);
            }
        }
        if ws_char(ch) {
            if cur.as_str().is_empty() {
            } else {
                let w = cur;
                cur = String::new();
                out.push(w);
                assert(strings_view(out@) =~= before_out.push(before_cur));
                assert(before_out + (seq![before_cur] + words(c.skip(i + 1))) =~= strings_view(out@) + words(c.skip(i + 1)));
            }
        } else {
            push_char(&mut cur, ch);
            proof {
                assert(cur@ =~= before_cur + seq![ch]);
                let w1 = words(c.skip(i + 1));
                let ww = words(c.skip(i as int));
                if i + 1 < c.len() && !is_ws(c[i + 1]) {
                    lemma_words_nonempty(c.skip(i + 1));
                    assert(ww == w1.update(0, seq![ch] + w1[0]));
                    if before_cur.len() > 0 {
                        assert(ww[0] == seq![ch] + w1[0]);
                        assert(before_cur + (seq![ch] + w1[0]) =~= cur@ + w1[0]);
                        assert(ww.update(0, before_cur + ww[0]) =~= w1.update(0, cur@ + w1[0]));
                    }
                } else {
                    assert(ww == seq![seq![ch]] + w1);
                    if before_cur.len() > 0 {
                        assert(ww.update(0, before_cur + ww[0]) =~= seq![cur@] + w1);
                    } else {
                        assert(seq![ch] =~= cur@);
                    }
                }
            }
        }
        i += 1;
    }
    if !cur.as_str().is_empty() {
        let ghost before_out = strings_view(out@);
        let ghost bc = cur@;
        out.push(cur);
        assert(strings_view(out@) =~= before_out.push(bc));
        assert(c.skip(i as int) =~= Seq::<char>::empty());
        assert(before_out + (seq![bc] + Seq::<Seq<char>>::empty()) =~= strings_view(out@));
    } else {
        assert(c.skip(i as int) =~= Seq::<char>::empty());
        assert(strings_view(out@) + Seq::<Seq<char>>::empty() =~= strings_view(out@));
    }
    out
}

/// Puts a launch prefix in front of a command (see `prefixed_command`).
pub fn apply_launch_prefix(program: &str, args: Vec<String>, launch_prefix: Option<&str>) -> (r: (String, Vec<String>))
    ensures
        (r.0@, strings_view(r.1@)) == prefixed_command(
            program@,
            strings_view(args@),
            match launch_prefix {
                Some(p) => Some(p@),
                None => None,
            },
        ),
{
    if let Some(prefix) = launch_prefix {
        let parts = split_words(prefix);
        if parts.len() > 0 {
            let ghost w = strings_view(parts@);
            let mut all: Vec<String> = Vec::new();
            let mut k: usize = 1;
            assert(strings_view(all@) =~= w.drop_first().take(0));
            while k < parts.len()
                invariant
                    1 <= k <= parts@.len(),
                    w == strings_view(parts@),
                    strings_view(all@) == w.drop_first().take(k - 1),
                decreases parts@.len() - k,
            {
                let ghost before = strings_view(all@);
                let t = owned(parts[k].as_str());
                all.push(t);
                assert(strings_view(all@) =~= before.push(w[k as int]));
                assert(w.drop_first().take(k as int) =~= w.drop_first().take(k - 1).push(w[k as int]));
                assert(strings_view(all@) =~= w.drop_first().take(k as int));
                k += 1;
            }
            assert(w.drop_first().take(w.len() - 1) =~= w.drop_first());
            let ghost mid = strings_view(all@);
            let p = owned(program);
            all.push(p);
            assert(strings_view(all@) =~= mid + seq![program@]);
            let ghost mid2 = strings_view(all@);
            let ghost av = strings_view(args@);
            for a in it: args
                invariant
                    it.seq() == args@,
                    av == strings_view(args@),
                    strings_view(all@) == mid2 + av.take(it.index() as int),
            {
                let ghost k2 = it.index();
                let ghost v = a@;
                let ghost before = strings_view(all@);
                assert(av.take(k2 + 1) =~= av.take(k2 as int).push(v));
                all.push(a);
                assert(strings_view(all@) =~= before.push(v));
                assert(strings_view(all@) =~= mid2 + av.take(k2 + 1));
            }
            assert(av.take(av.len() as int) =~= av);
            let first = owned(parts[0].as_str());
            return (first, all);
        }
    }
    (owned(program), args)
}

// ---------------------------------------------------------------------
// Game exit.
// ---------------------------------------------------------------------

/// The position of the first newline in `cs`, or its length.
pub open spec fn nl_index(cs: Seq<char>) -> nat
    decreases cs.len(),
{
    if cs.len() == 0 {
        0
    } else if cs[0] == '\n' {
        0
    } else {
        1 + nl_index(cs.drop_first())
    }
}

pub proof fn lemma_nl_index(cs: Seq<char>)
    ensures
        nl_index(cs) <= cs.len(),
        nl_index(cs) < cs.len() ==> cs[nl_index(cs) as int] == '\n',
        forall|j: int| 0 <= j < nl_index(cs) ==> cs[j] != '\n',
    decreases cs.len(),
{
    if cs.len() > 0 && cs[0] != '\n' {
        lemma_nl_index(cs.drop_first());
        assert forall|j: int| 0 <= j < nl_index(cs) implies cs[j] != '\n' by {
            if j > 0 {
                assert(cs[j] == cs.drop_first()[j - 1]);
            }
        }
    }
}

/// The lines of a text as `str::lines` gives them: split at each newline,
/// a carriage return before it dropped, no empty line after a final
/// newline.
pub open spec fn lines(cs: Seq<char>) -> Seq<Seq<char>>
    decreases cs.len(),
{
    if cs.len() == 0 {
        seq![]
    } else {
        let i = nl_index(cs) as int;
        if i >= cs.len() {
            seq![cs]
        } else {
            proof {
                lemma_nl_index(cs);
            }
            let l = cs.take(i);
            let l = if l.len() > 0 && l.last() == '\r' {
                l.drop_last()
            } else {
                l
            };
            seq![l] + lines(cs.skip(i + 1))
        }
    }
}

/// Whether `pat` occurs in `s`.
pub open spec fn has_text(s: Seq<char>, pat: Seq<char>) -> bool {
    exists|i: int| 0 <= i && i + pat.len() <= s.len() && #[trigger] s.subrange(i, i + pat.len()) == pat
}

/// Whether the game ended normally: on Windows by exit code 0; elsewhere
/// when one of the last three lines of its log mentions
/// `AppPolicyGetProcessTerminationMethod`.
pub open spec fn game_ended_ok(log: Seq<char>, exit_code: i32, on_windows: bool) -> bool {
    if on_windows {
        exit_code == 0
    } else {
        let l = lines(log);
        exists|j: int| 0 <= j < l.len() && j >= l.len() - 3 && has_text(#[trigger] l[j], "AppPolicyGetProcessTerminationMethod"@)
    }
}

proof fn lemma_lines_step(cur: Seq<char>, rest: Seq<char>)
    requires
        forall|j: int| 0 <= j < cur.len() ==> cur[j] != '\n',
    ensures
        lines(cur + seq!['\n'] + rest) == seq![if cur.len() > 0 && cur.last() == '\r' {
            cur.drop_last()
        } else {
            cur
        }] + lines(rest),
{
    let cs = cur + seq!['\n'] + rest;
    lemma_nl_index(cs);
    if nl_index(cs) < cur.len() {
        assert(cs[nl_index(cs) as int] == cur[nl_index(cs) as int]);
    }
    if nl_index(cs) > cur.len() {
        assert(cs[cur.len() as int] == '\n');
    }
    assert(nl_index(cs) == cur.len());
    assert(cs.take(cur.len() as int) =~= cur);
    assert(cs.skip(cur.len() as int + 1) =~= rest);
}

proof fn lemma_lines_last(cur: Seq<char>)
    requires
        forall|j: int| 0 <= j < cur.len() ==> cur[j] != '\n',
    ensures
        lines(cur) == (if cur.len() == 0 { Seq::<Seq<char>>::empty() } else { seq![cur] }),
{
    lemma_nl_index(cur);
    if cur.len() > 0 && nl_index(cur) < cur.len() {
        assert(cur[nl_index(cur) as int] == '\n');
    }
}

pub(crate) fn log_lines(log: &str) -> (r: Vec<Vec<char>>)
    ensures
        Seq::new(r@.len(), |i: int| r@[i]@) == lines(log@),
{
    let cs = chars_of(log);
    let ghost c = cs@;
    let mut out: Vec<Vec<char>> = Vec::new();
    let mut cur: Vec<char> = Vec::new();
    let mut i: usize = 0;
    assert(c.skip(0) =~= c);
    assert(cur@ + c.skip(0) =~= c);
    while i < cs.len()
        invariant
            i <= c.len(),
            c == cs@,
            c == log@,
            forall|j: int| 0 <= j < cur@.len() ==> cur@[j] != '\n',
            lines(c) == Seq::new(out@.len(), |k: int| out@[k]@) + lines(cur@ + c.skip(i as int)),
        decreases c.len() - i,
    {
        let ch = cs[i];
        let ghost ov = Seq::new(out@.len(), |k: int| out@[k]@);
        assert(c.skip(i as int) =~= seq![ch] + c.skip(i + 1));
        if ch == '\n' {
            proof {
                lemma_lines_step(cur@, c.skip(i + 1));
                assert(cur@ + c.skip(i as int) =~= cur@ + seq!['\n'] + c.skip(i + 1));
            }
            let mut line = cur;
            let ghost before_line = line@;
            cur = Vec::new();
            let n = line.len();
            if n > 0 && line[n - 1] == '\r' {
                line.pop();
            }
            let ghost lv = line@;
            assert(lv == (if before_line.len() > 0 && before_line.last() == '\r' { before_line.drop_last() } else { before_line }));
            out.push(line);
            assert(Seq::new(out@.len(), |k: int| out@[k]@) =~= ov.push(lv));
            assert(cur@ + c.skip(i + 1) =~= c.skip(i + 1));
            assert(ov + (seq![lv] + lines(c.skip(i + 1))) =~= ov.push(lv) + lines(c.skip(i + 1)));
        } else {
            let ghost before_cur = cur@;
            cur.push(ch);
            assert(cur@ + c.skip(i + 1) =~= before_cur + c.skip(i as int));
        }
        i += 1;
    }
    assert(c.skip(i as int) =~= Seq::<char>::empty());
    assert(cur@ + Seq::<char>::empty() =~= cur@);
    proof {
        lemma_lines_last(cur@);
    }
    if cur.len() > 0 {
        let ghost ov = Seq::new(out@.len(), |k: int| out@[k]@);
        let ghost cv = cur@;
        out.push(cur);
        assert(Seq::new(out@.len(), |k: int| out@[k]@) =~= ov + seq![cv]);
    } else {
        assert(Seq::new(out@.len(), |k: int| out@[k]@) + Seq::<Seq<char>>::empty() =~= Seq::new(out@.len(), |k: int| out@[k]@));
    }
    out
}

fn has_chars(s: &Vec<char>, pat: &Vec<char>) -> (r: bool)
    ensures
        r == has_text(s@, pat@),
{
    let sl = s.len();
    if pat.len() > sl {
        return false;
    }
    let last = sl - pat.len();
    let mut i: usize = 0;
    loop
        invariant
            sl == s@.len(),
            pat@.len() <= s@.len(),
            last == s@.len() - pat@.len(),
            i <= last,
            forall|j: int| 0 <= j < i ==> #[trigger] s@.subrange(j, j + pat@.len()) != pat@,
        decreases last - i,
    {
        let mut k: usize = 0;
        let mut ok = true;
        while k < pat.len()
            invariant
                sl == s@.len(),
                i <= last,
                last == s@.len() - pat@.len(),
                k <= pat@.len(),
                ok == (forall|m: int| 0 <= m < k ==> s@[i + m] == pat@[m]),
            decreases pat@.len() - k,
        {
            if s[i + k] != pat[k] {
                ok = false;
            }
            k += 1;
        }
        if ok {
            assert(s@.subrange(i as int, i + pat@.len()) =~= pat@);
            return true;
        } else {
            let ghost m = choose|m: int| 0 <= m < pat@.len() && s@[i + m] != pat@[m];
            assert(s@.subrange(i as int, i + pat@.len())[m] != pat@[m]);
        }
        if i == last {
            assert forall|j: int| 0 <= j && j + pat@.len() <= s@.len() implies #[trigger] s@.subrange(j, j + pat@.len()) != pat@ by {
                assert(j <= i);
            }
            return false;
        }
        i += 1;
    }
}

/// Whether the game ended normally (see `game_ended_ok`).
pub fn game_exited_ok(log: &str, exit_code: i32, on_windows: bool) -> (r: bool)
    ensures
        r == game_ended_ok(log@, exit_code, on_windows),
{
    if on_windows {
        return exit_code == 0;
    }
    let ls = log_lines(log);
    let pat = chars_of("AppPolicyGetProcessTerminationMethod");
    let ghost lv = Seq::new(ls@.len(), |i: int| ls@[i]@);
    let n = ls.len();
    let start: usize = if n > 3 {
        n - 3
    } else {
        0
    };
    let mut j = start;
    while j < n
        invariant
            start <= j <= n,
            n == ls@.len(),
            start == (if n > 3 { n - 3 } else { 0 }),
            lv == Seq::new(ls@.len(), |i: int| ls@[i]@),
            lv == lines(log@),
            !on_windows,
            pat@ == "AppPolicyGetProcessTerminationMethod"@,
            forall|k: int| start <= k < j ==> !has_text(#[trigger] lv[k], pat@),
        decreases n - j,
    {
        if has_chars(&ls[j], &pat) {
            assert(has_text(lv[j as int], pat@));
            assert(has_text(lines(log@)[j as int], "AppPolicyGetProcessTerminationMethod"@));
            return true;
        }
        j += 1;
    }
    false
}

} // verus!
