use vstd::prelude::*;

use vstd::std_specs::iter::IteratorSpec;
use vstd::string::StringExecFns;

verus! {

broadcast use vstd::string::axiom_spec_iter;

/// Whether `c` has the Unicode `White_Space` property.
pub open spec fn is_white_space(c: char) -> bool {
    let u = c as u32;
    ||| 0x09 <= u <= 0x0d
    ||| u == 0x20
    ||| u == 0x85
    ||| u == 0xa0
    ||| u == 0x1680
    ||| 0x2000 <= u <= 0x200a
    ||| u == 0x2028
    ||| u == 0x2029
    ||| u == 0x202f
    ||| u == 0x205f
    ||| u == 0x3000
}

/// `s` without its leading white space.
pub open spec fn trim_start(s: Seq<char>) -> Seq<char>
    decreases s.len(),
{
    if s.len() > 0 && is_white_space(s[0]) {
        trim_start(s.drop_first())
    } else {
        s
    }
}

/// `s` without its trailing white space.
pub open spec fn trim_end(s: Seq<char>) -> Seq<char>
    decreases s.len(),
{
    if s.len() > 0 && is_white_space(s.last()) {
        trim_end(s.drop_last())
    } else {
        s
    }
}

/// `s` without its leading and trailing white space.
pub open spec fn spec_trim(s: Seq<char>) -> Seq<char> {
    trim_end(trim_start(s))
}

/// Calls std's `str::trim`, which its documentation describes as returning
/// the string with leading and trailing white space removed, white space
/// being the characters with the Unicode `White_Space` property.
#[verifier::external_body]
fn trim(value: &str) -> (r: &str)
    ensures
        r@ == spec_trim(value@),
{
    value.trim()
}

/// The ASCII lower-case form of a character: `A` to `Z` become `a` to `z`,
/// every other character stays as it is.
pub open spec fn ascii_lower(c: char) -> char {
    if 'A' <= c <= 'Z' {
        ((c as u32) + 32) as char
    } else {
        c
    }
}

fn to_ascii_lower(c: char) -> (r: char)
    ensures
        r == ascii_lower(c),
{
    if 'A' <= c && c <= 'Z' {
        ((c as u8) + 32) as char
    } else {
        c
    }
}

/// The characters of `s` in ASCII lower case.
pub fn ascii_lowercase_chars(s: &str) -> (r: Vec<char>)
    ensures
        r@ == s@.map_values(|c: char| ascii_lower(c)),
{
    let mut r: Vec<char> = Vec::new();
    for c in it: s.chars()
        invariant
            it.seq() == s@,
            r@ == s@.take(it.index()).map_values(|c: char| ascii_lower(c)),
    {
        r.push(to_ascii_lower(c));
        assert(r@ =~= s@.take(it.index() + 1).map_values(|c: char| ascii_lower(c)));
    }
    assert(s@.take(s@.len() as int) =~= s@);
    r
}

/// The characters of `s`.
fn chars_of(s: &str) -> (r: Vec<char>)
    ensures
        r@ == s@,
{
    let mut r: Vec<char> = Vec::new();
    for c in it: s.chars()
        invariant
            it.seq() == s@,
            r@ == s@.take(it.index()),
    {
        r.push(c);
        assert(r@ =~= s@.take(it.index() + 1));
    }
    assert(s@.take(s@.len() as int) =~= s@);
    r
}

/// Whether the characters `name` spell the string `lit`.
fn spells(name: &Vec<char>, lit: &str) -> (r: bool)
    ensures
        r == (name@ == lit@),
{
    let b = chars_of(lit);
    if name.len() != b.len() {
        return false;
    }
    let n = name.len();
    let mut i: usize = 0;
    while i < n
        invariant
            n == name@.len(),
            n == b@.len(),
            b@ == lit@,
            i <= n,
            forall|j: int| 0 <= j < i ==> name@[j] == b@[j],
        decreases n - i,
    {
        if name[i] != b[i] {
            return false;
        }
        i = i + 1;
    }
    assert(name@ =~= b@);
    true
}

/// A key that can be bound to an action.
#[derive(Debug, Clone, Copy, PartialEq, Eq, Hash, Structural)]
pub enum Key {
    KeyW,
    KeyA,
    KeyS,
    KeyD,
    KeyQ,
    KeyE,
    KeyM,
    Tab,
    ArrowUp,
    ArrowDown,
    ArrowLeft,
    ArrowRight,
    PageUp,
    PageDown,
}

/// The key a lower-case, trimmed name stands for.
pub open spec fn spec_key_for_name(n: Seq<char>) -> Option<Key> {
    if n == "w"@ || n == "keyw"@ || n == "key_w"@ {
        Some(Key::KeyW)
    } else if n == "a"@ || n == "keya"@ || n == "key_a"@ {
        Some(Key::KeyA)
    } else if n == "s"@ || n == "keys"@ || n == "key_s"@ {
        Some(Key::KeyS)
    } else if n == "d"@ || n == "keyd"@ || n == "key_d"@ {
        Some(Key::KeyD)
    } else if n == "q"@ || n == "keyq"@ || n == "key_q"@ {
        Some(Key::KeyQ)
    } else if n == "e"@ || n == "keye"@ || n == "key_e"@ {
        Some(Key::KeyE)
    } else if n == "m"@ || n == "keym"@ || n == "key_m"@ {
        Some(Key::KeyM)
    } else if n == "tab"@ {
        Some(Key::Tab)
    } else if n == "arrowup"@ || n == "arrow_up"@ || n == "up"@ {
        Some(Key::ArrowUp)
    } else if n == "arrowdown"@ || n == "arrow_down"@ || n == "down"@ {
        Some(Key::ArrowDown)
    } else if n == "arrowleft"@ || n == "arrow_left"@ || n == "left"@ {
        Some(Key::ArrowLeft)
    } else if n == "arrowright"@ || n == "arrow_right"@ || n == "right"@ {
        Some(Key::ArrowRight)
    } else if n == "pageup"@ || n == "page_up"@ {
        Some(Key::PageUp)
    } else if n == "pagedown"@ || n == "page_down"@ {
        Some(Key::PageDown)
    } else {
        None
    }
}

fn key_for_name(n: &Vec<char>) -> (r: Option<Key>)
    ensures
        r == spec_key_for_name(n@),
{
    if spells(n, "w") || spells(n, "keyw") || spells(n, "key_w") {
        Some(Key::KeyW)
    } else if spells(n, "a") || spells(n, "keya") || spells(n, "key_a") {
        Some(Key::KeyA)
    } else if spells(n, "s") || spells(n, "keys") || spells(n, "key_s") {
        Some(Key::KeyS)
    } else if spells(n, "d") || spells(n, "keyd") || spells(n, "key_d") {
        Some(Key::KeyD)
    } else if spells(n, "q") || spells(n, "keyq") || spells(n, "key_q") {
        Some(Key::KeyQ)
    } else if spells(n, "e") || spells(n, "keye") || spells(n, "key_e") {
        Some(Key::KeyE)
    } else if spells(n, "m") || spells(n, "keym") || spells(n, "key_m") {
        Some(Key::KeyM)
    } else if spells(n, "tab") {
        Some(Key::Tab)
    } else if spells(n, "arrowup") || spells(n, "arrow_up") || spells(n, "up") {
        Some(Key::ArrowUp)
    } else if spells(n, "arrowdown") || spells(n, "arrow_down") || spells(n, "down") {
        Some(Key::ArrowDown)
    } else if spells(n, "arrowleft") || spells(n, "arrow_left") || spells(n, "left") {
        Some(Key::ArrowLeft)
    } else if spells(n, "arrowright") || spells(n, "arrow_right") || spells(n, "right") {
        Some(Key::ArrowRight)
    } else if spells(n, "pageup") || spells(n, "page_up") {
        Some(Key::PageUp)
    } else if spells(n, "pagedown") || spells(n, "page_down") {
        Some(Key::PageDown)
    } else {
        None
    }
}

/// The form a key name is compared in: trimmed and in ASCII lower case.
pub open spec fn normalized(s: Seq<char>) -> Seq<char> {
    spec_trim(s).map_values(|c: char| ascii_lower(c))
}

/// The message that rejects a key name.
pub open spec fn unsupported_key_message(value: Seq<char>) -> Seq<char> {
    "Unsupported key '"@ + value + "'. Use W/A/S/D, Q/E, Tab, M, Arrow keys, or PageUp/PageDown."@
}

/// Parses a key name from the configuration. Surrounding white space and
/// ASCII case are ignored; a name that stands for no supported key is
/// rejected with a message that quotes it.
pub fn parse_keycode(value: &str) -> (r: Result<Key, String>)
    ensures
        match r {
            Ok(k) => spec_key_for_name(normalized(value@)) == Some(k),
            Err(msg) => spec_key_for_name(normalized(value@)) is None && msg@ == unsupported_key_message(value@),
        },
{
    let trimmed = trim(value);
    let name = ascii_lowercase_chars(trimmed);
    match key_for_name(&name) {
        Some(k) => Ok(k),
        None => {
            let mut msg = String::from_str("Unsupported key '");
            msg.append(value);
            msg.append("'. Use W/A/S/D, Q/E, Tab, M, Arrow keys, or PageUp/PageDown.");
            Err(msg)
        },
    }
}

/// The key names of the configuration, one per action.
pub struct ControlsConfig {
    pub move_forward: String,
    pub move_backward: String,
    pub move_left: String,
    pub move_right: String,
    pub rotate_left: String,
    pub rotate_right: String,
    pub look_hold: String,
    pub look_mode_toggle: String,
}

/// The key bound to each action.
#[derive(Debug, Clone, Copy, PartialEq, Eq, Structural)]
pub struct Controls {
    pub move_forward: Key,
    pub move_backward: Key,
    pub move_left: Key,
    pub move_right: Key,
    pub rotate_left: Key,
    pub rotate_right: Key,
    pub look_hold: Key,
    pub look_mode_toggle: Key,
}

/// The names of the configuration in the order they are read.
pub open spec fn control_names(c: &ControlsConfig) -> Seq<Seq<char>> {
    seq![
        c.move_forward@,
        c.move_backward@,
        c.move_left@,
        c.move_right@,
        c.rotate_left@,
        c.rotate_right@,
        c.look_hold@,
        c.look_mode_toggle@,
    ]
}

/// Whether the name stands for a supported key.
pub open spec fn names_a_key(n: Seq<char>) -> bool {
    spec_key_for_name(normalized(n)) is Some
}

/// The key a configured name stands for.
pub open spec fn key_of(n: Seq<char>) -> Key {
    spec_key_for_name(normalized(n))->0
}

impl Controls {
    /// Reads the key of every action from the configuration, in the order
    /// of the fields; the first name that stands for no supported key makes
    /// the whole reading fail with that name's message.
    pub fn from_config(config: &ControlsConfig) -> (r: Result<Controls, String>)
        ensures
            ({
                let names = control_names(config);
                match r {
                    Ok(c) => (forall|i: int| 0 <= i < 8 ==> names_a_key(#[trigger] names[i])) && c == (Controls {
                        move_forward: key_of(names[0]),
                        move_backward: key_of(names[1]),
                        move_left: key_of(names[2]),
                        move_right: key_of(names[3]),
                        rotate_left: key_of(names[4]),
                        rotate_right: key_of(names[5]),
                        look_hold: key_of(names[6]),
                        look_mode_toggle: key_of(names[7]),
                    }),
                    Err(msg) => exists|i: int|
                        0 <= i < 8 && !names_a_key(#[trigger] names[i]) && (forall|j: int|
                            0 <= j < i ==> names_a_key(#[trigger] names[j])) && msg@ == unsupported_key_message(
                            names[i],
                        ),
                }
            }),
    {
        let ghost names = control_names(config);
        let move_forward = match parse_keycode(config.move_forward.as_str()) {
            Ok(k) => k,
            Err(e) => {
                assert(!names_a_key(names[0]));
                return Err(e);
            },
        };
        let move_backward = match parse_keycode(config.move_backward.as_str()) {
            Ok(k) => k,
            Err(e) => {
                assert(!names_a_key(names[1]) && names_a_key(names[0]));
                return Err(e);
            },
        };
        let move_left = match parse_keycode(config.move_left.as_str()) {
            Ok(k) => k,
            Err(e) => {
                assert(!names_a_key(names[2]) && names_a_key(names[0]) && names_a_key(names[1]));
                return Err(e);
            },
        };
        let move_right = match parse_keycode(config.move_right.as_str()) {
            Ok(k) => k,
            Err(e) => {
                assert(!names_a_key(names[3]) && names_a_key(names[0]) && names_a_key(names[1]) && names_a_key(
                    names[2],
                ));
                return Err(e);
            },
        };
        let rotate_left = match parse_keycode(config.rotate_left.as_str()) {
            Ok(k) => k,
            Err(e) => {
                assert(!names_a_key(names[4]) && names_a_key(names[0]) && names_a_key(names[1]) && names_a_key(
                    names[2],
                ) && names_a_key(names[3]));
                return Err(e);
            },
        };
        let rotate_right = match parse_keycode(config.rotate_right.as_str()) {
            Ok(k) => k,
            Err(e) => {
                assert(!names_a_key(names[5]) && names_a_key(names[0]) && names_a_key(names[1]) && names_a_key(
                    names[2],
                ) && names_a_key(names[3]) && names_a_key(names[4]));
                return Err(e);
            },
        };
        let look_hold = match parse_keycode(config.look_hold.as_str()) {
            Ok(k) => k,
            Err(e) => {
                assert(!names_a_key(names[6]) && names_a_key(names[0]) && names_a_key(names[1]) && names_a_key(
                    names[2],
                ) && names_a_key(names[3]) && names_a_key(names[4]) && names_a_key(names[5]));
                return Err(e);
            },
        };
        let look_mode_toggle = match parse_keycode(config.look_mode_toggle.as_str()) {
            Ok(k) => k,
            Err(e) => {
                assert(!names_a_key(names[7]) && names_a_key(names[0]) && names_a_key(names[1]) && names_a_key(
                    names[2],
                ) && names_a_key(names[3]) && names_a_key(names[4]) && names_a_key(names[5]) && names_a_key(
                    names[6],
                ));
                return Err(e);
            },
        };
        assert(forall|i: int| 0 <= i < 8 ==> names_a_key(#[trigger] names[i]));
        Ok(
            Controls {
                move_forward,
                move_backward,
                move_left,
                move_right,
                rotate_left,
                rotate_right,
                look_hold,
                look_mode_toggle,
            },
        )
    }
}

/// The level of detail of the game's log.
#[derive(Debug, Clone, Copy, PartialEq, Eq, Structural)]
pub enum LogLevel {
    Error,
    Warn,
    Info,
    Debug,
    Trace,
}

/// The level a log-level name stands for once trimmed and in lower case;
/// `off` keeps the errors.
pub open spec fn spec_log_level(n: Seq<char>) -> Option<LogLevel> {
    if n == "off"@ || n == "error"@ {
        Some(LogLevel::Error)
    } else if n == "warn"@ {
        Some(LogLevel::Warn)
    } else if n == "info"@ {
        Some(LogLevel::Info)
    } else if n == "debug"@ {
        Some(LogLevel::Debug)
    } else if n == "trace"@ {
        Some(LogLevel::Trace)
    } else {
        None
    }
}

/// Parses the configured log level, ignoring surrounding white space and
/// ASCII case; `None` for a name that stands for no level (the game then
/// warns and logs at `Info`).
pub fn parse_log_level(value: &str) -> (r: Option<LogLevel>)
    ensures
        r == spec_log_level(normalized(value@)),
{
    let name = ascii_lowercase_chars(trim(value));
    if spells(&name, "off") || spells(&name, "error") {
        Some(LogLevel::Error)
    } else if spells(&name, "warn") {
        Some(LogLevel::Warn)
    } else if spells(&name, "info") {
        Some(LogLevel::Info)
    } else if spells(&name, "debug") {
        Some(LogLevel::Debug)
    } else if spells(&name, "trace") {
        Some(LogLevel::Trace)
    } else {
        None
    }
}

/// How the camera follows the player's look input.
#[derive(Debug, Clone, Copy, PartialEq, Eq, Structural)]
pub enum LookMode {
    /// Mouse motion turns the camera.
    Relative,
    /// The cursor position sets the camera's angle.
    Absolute,
}

impl LookMode {
    /// The other look mode.
    pub open spec fn spec_toggled(self) -> LookMode {
        match self {
            LookMode::Relative => LookMode::Absolute,
            LookMode::Absolute => LookMode::Relative,
        }
    }
}

/// Switches the look mode when the toggle key went down in this frame.
pub fn toggle_camera_look_mode(mode: LookMode, toggle_just_pressed: bool) -> (r: LookMode)
    ensures
        r == if toggle_just_pressed {
            mode.spec_toggled()
        } else {
            mode
        },
{
    if toggle_just_pressed {
        match mode {
            LookMode::Relative => LookMode::Absolute,
            LookMode::Absolute => LookMode::Relative,
        }
    } else {
        mode
    }
}

/// Toggling the look mode twice gives back the mode.
pub proof fn lemma_toggle_twice(mode: LookMode)
    ensures
        mode.spec_toggled().spec_toggled() == mode,
        mode.spec_toggled() != mode,
{
}

/// Turning ASCII letters to lower case neither creates nor removes white
/// space.
proof fn lemma_lower_keeps_white_space(c: char)
    ensures
        is_white_space(ascii_lower(c)) == is_white_space(c),
{
}

proof fn lemma_trim_start_lower(s: Seq<char>)
    ensures
        trim_start(s.map_values(|c: char| ascii_lower(c))) == trim_start(s).map_values(|c: char| ascii_lower(c)),
    decreases s.len(),
{
    let l = s.map_values(|c: char| ascii_lower(c));
    if s.len() > 0 {
        lemma_lower_keeps_white_space(s[0]);
        assert(l[0] == ascii_lower(s[0]));
        if is_white_space(s[0]) {
            assert(l.drop_first() =~= s.drop_first().map_values(|c: char| ascii_lower(c)));
            lemma_trim_start_lower(s.drop_first());
        }
    }
}

proof fn lemma_trim_end_lower(s: Seq<char>)
    ensures
        trim_end(s.map_values(|c: char| ascii_lower(c))) == trim_end(s).map_values(|c: char| ascii_lower(c)),
    decreases s.len(),
{
    let l = s.map_values(|c: char| ascii_lower(c));
    if s.len() > 0 {
        lemma_lower_keeps_white_space(s.last());
        assert(l.last() == ascii_lower(s.last()));
        if is_white_space(s.last()) {
            assert(l.drop_last() =~= s.drop_last().map_values(|c: char| ascii_lower(c)));
            lemma_trim_end_lower(s.drop_last());
        }
    }
}

proof fn lemma_trim_start_result(s: Seq<char>)
    ensures
        trim_start(s).len() > 0 ==> !is_white_space(trim_start(s)[0]),
        trim_start(trim_start(s)) == trim_start(s),
    decreases s.len(),
{
    if s.len() > 0 && is_white_space(s[0]) {
        lemma_trim_start_result(s.drop_first());
    }
}

proof fn lemma_trim_end_result(s: Seq<char>)
    ensures
        trim_end(s).len() <= s.len(),
        trim_end(s) == s.take(trim_end(s).len() as int),
        trim_end(trim_end(s)) == trim_end(s),
    decreases s.len(),
{
    if s.len() > 0 && is_white_space(s.last()) {
        lemma_trim_end_result(s.drop_last());
        let t = trim_end(s.drop_last());
        assert(s.drop_last().take(t.len() as int) =~= s.take(t.len() as int));
    } else {
        assert(s.take(s.len() as int) =~= s);
    }
}

/// Key names are read regardless of surrounding white space and ASCII case:
/// trimming or lower-casing a name first does not change the name it is
/// compared as.
pub proof fn lemma_key_names_ignore_case_and_space(s: Seq<char>)
    ensures
        normalized(spec_trim(s)) == normalized(s),
        normalized(s.map_values(|c: char| ascii_lower(c))) == normalized(s),
{
    let y = trim_start(s);
    let z = trim_end(y);
    lemma_trim_start_result(s);
    lemma_trim_end_result(y);
    lemma_trim_end_result(z);
    if z.len() > 0 {
        assert(z[0] == y[0]);
    }
    assert(trim_start(z) == z);
    assert(spec_trim(spec_trim(s)) == spec_trim(s));
    lemma_trim_start_lower(s);
    lemma_trim_end_lower(y);
}


/// The names each key is spelled by in the configuration, in lower case.
pub open spec fn key_names(k: Key) -> Seq<Seq<char>> {
    match k {
        Key::KeyW => seq!["w"@, "keyw"@, "key_w"@],
        Key::KeyA => seq!["a"@, "keya"@, "key_a"@],
        Key::KeyS => seq!["s"@, "keys"@, "key_s"@],
        Key::KeyD => seq!["d"@, "keyd"@, "key_d"@],
        Key::KeyQ => seq!["q"@, "keyq"@, "key_q"@],
        Key::KeyE => seq!["e"@, "keye"@, "key_e"@],
        Key::KeyM => seq!["m"@, "keym"@, "key_m"@],
        Key::Tab => seq!["tab"@],
        Key::ArrowUp => seq!["arrowup"@, "arrow_up"@, "up"@],
        Key::ArrowDown => seq!["arrowdown"@, "arrow_down"@, "down"@],
        Key::ArrowLeft => seq!["arrowleft"@, "arrow_left"@, "left"@],
        Key::ArrowRight => seq!["arrowright"@, "arrow_right"@, "right"@],
        Key::PageUp => seq!["pageup"@, "page_up"@],
        Key::PageDown => seq!["pagedown"@, "page_down"@],
    }
}

/// Every name of a key stands for that key and for no other, and a name
/// stands for a key only when it is one of that key's names.
pub proof fn lemma_key_names_stand_for_their_key(k: Key, n: Seq<char>)
    ensures
        key_names(k).contains(n) ==> spec_key_for_name(n) == Some(k),
        spec_key_for_name(n) == Some(k) ==> key_names(k).contains(n),
{
    reveal_strlit("w");
    reveal_strlit("keyw");
    reveal_strlit("key_w");
    reveal_strlit("a");
    reveal_strlit("keya");
    reveal_strlit("key_a");
    reveal_strlit("s");
    reveal_strlit("keys");
    reveal_strlit("key_s");
    reveal_strlit("d");
    reveal_strlit("keyd");
    reveal_strlit("key_d");
    reveal_strlit("q");
    reveal_strlit("keyq");
    reveal_strlit("key_q");
    reveal_strlit("e");
    reveal_strlit("keye");
    reveal_strlit("key_e");
    reveal_strlit("m");
    reveal_strlit("keym");
    reveal_strlit("key_m");
    reveal_strlit("tab");
    reveal_strlit("arrowup");
    reveal_strlit("arrow_up");
    reveal_strlit("up");
    reveal_strlit("arrowdown");
    reveal_strlit("arrow_down");
    reveal_strlit("down");
    reveal_strlit("arrowleft");
    reveal_strlit("arrow_left");
    reveal_strlit("left");
    reveal_strlit("arrowright");
    reveal_strlit("arrow_right");
    reveal_strlit("right");
    reveal_strlit("pageup");
    reveal_strlit("page_up");
    reveal_strlit("pagedown");
    reveal_strlit("page_down");
    if key_names(k).contains(n) {
        let i = choose|i: int| 0 <= i < key_names(k).len() && key_names(k)[i] == n;
        assert("w"@.len() == 1);
        assert("keyw"@.len() == 4);
        assert("key_w"@.len() == 5);
        assert("a"@.len() == 1);
        assert("keya"@.len() == 4);
        assert("key_a"@.len() == 5);
        assert("s"@.len() == 1);
        assert("keys"@.len() == 4);
        assert("key_s"@.len() == 5);
        assert("d"@.len() == 1);
        assert("keyd"@.len() == 4);
        assert("key_d"@.len() == 5);
        assert("q"@.len() == 1);
        assert("keyq"@.len() == 4);
        assert("key_q"@.len() == 5);
        assert("e"@.len() == 1);
        assert("keye"@.len() == 4);
        assert("key_e"@.len() == 5);
        assert("m"@.len() == 1);
        assert("keym"@.len() == 4);
        assert("key_m"@.len() == 5);
        assert("tab"@.len() == 3);
        assert("arrowup"@.len() == 7);
        assert("arrow_up"@.len() == 8);
        assert("up"@.len() == 2);
        assert("arrowdown"@.len() == 9);
        assert("arrow_down"@.len() == 10);
        assert("down"@.len() == 4);
        assert("arrowleft"@.len() == 9);
        assert("arrow_left"@.len() == 10);
        assert("left"@.len() == 4);
        assert("arrowright"@.len() == 10);
        assert("arrow_right"@.len() == 11);
        assert("right"@.len() == 5);
        assert("pageup"@.len() == 6);
        assert("page_up"@.len() == 7);
        assert("pagedown"@.len() == 8);
        assert("page_down"@.len() == 9);
        match k {
            Key::KeyW => {
                assert(spec_key_for_name("w"@) == Some(Key::KeyW));
                assert(spec_key_for_name("keyw"@) == Some(Key::KeyW));
                assert(spec_key_for_name("key_w"@) == Some(Key::KeyW));
            },
            Key::KeyA => {
                assert("a"@[0] != "w"@[0]);
                assert(spec_key_for_name("a"@) == Some(Key::KeyA));
                assert("keya"@[3] != "keyw"@[3]);
                assert(spec_key_for_name("keya"@) == Some(Key::KeyA));
                assert("key_a"@[4] != "key_w"@[4]);
                assert(spec_key_for_name("key_a"@) == Some(Key::KeyA));
            },
            Key::KeyS => {
                assert("s"@[0] != "w"@[0]);
                assert("s"@[0] != "a"@[0]);
                assert(spec_key_for_name("s"@) == Some(Key::KeyS));
                assert("keys"@[3] != "keyw"@[3]);
                assert("keys"@[3] != "keya"@[3]);
                assert(spec_key_for_name("keys"@) == Some(Key::KeyS));
                assert("key_s"@[4] != "key_w"@[4]);
                assert("key_s"@[4] != "key_a"@[4]);
                assert(spec_key_for_name("key_s"@) == Some(Key::KeyS));
            },
            Key::KeyD => {
                assert("d"@[0] != "w"@[0]);
                assert("d"@[0] != "a"@[0]);
                assert("d"@[0] != "s"@[0]);
                assert(spec_key_for_name("d"@) == Some(Key::KeyD));
                assert("keyd"@[3] != "keyw"@[3]);
                assert("keyd"@[3] != "keya"@[3]);
                assert("keyd"@[3] != "keys"@[3]);
                assert(spec_key_for_name("keyd"@) == Some(Key::KeyD));
                assert("key_d"@[4] != "key_w"@[4]);
                assert("key_d"@[4] != "key_a"@[4]);
                assert("key_d"@[4] != "key_s"@[4]);
                assert(spec_key_for_name("key_d"@) == Some(Key::KeyD));
            },
            Key::KeyQ => {
                assert("q"@[0] != "w"@[0]);
                assert("q"@[0] != "a"@[0]);
                assert("q"@[0] != "s"@[0]);
                assert("q"@[0] != "d"@[0]);
                assert(spec_key_for_name("q"@) == Some(Key::KeyQ));
                assert("keyq"@[3] != "keyw"@[3]);
                assert("keyq"@[3] != "keya"@[3]);
                assert("keyq"@[3] != "keys"@[3]);
                assert("keyq"@[3] != "keyd"@[3]);
                assert(spec_key_for_name("keyq"@) == Some(Key::KeyQ));
                assert("key_q"@[4] != "key_w"@[4]);
                assert("key_q"@[4] != "key_a"@[4]);
                assert("key_q"@[4] != "key_s"@[4]);
                assert("key_q"@[4] != "key_d"@[4]);
                assert(spec_key_for_name("key_q"@) == Some(Key::KeyQ));
            },
            Key::KeyE => {
                assert("e"@[0] != "w"@[0]);
                assert("e"@[0] != "a"@[0]);
                assert("e"@[0] != "s"@[0]);
                assert("e"@[0] != "d"@[0]);
                assert("e"@[0] != "q"@[0]);
                assert(spec_key_for_name("e"@) == Some(Key::KeyE));
                assert("keye"@[3] != "keyw"@[3]);
                assert("keye"@[3] != "keya"@[3]);
                assert("keye"@[3] != "keys"@[3]);
                assert("keye"@[3] != "keyd"@[3]);
                assert("keye"@[3] != "keyq"@[3]);
                assert(spec_key_for_name("keye"@) == Some(Key::KeyE));
                assert("key_e"@[4] != "key_w"@[4]);
                assert("key_e"@[4] != "key_a"@[4]);
                assert("key_e"@[4] != "key_s"@[4]);
                assert("key_e"@[4] != "key_d"@[4]);
                assert("key_e"@[4] != "key_q"@[4]);
                assert(spec_key_for_name("key_e"@) == Some(Key::KeyE));
            },
            Key::KeyM => {
                assert("m"@[0] != "w"@[0]);
                assert("m"@[0] != "a"@[0]);
                assert("m"@[0] != "s"@[0]);
                assert("m"@[0] != "d"@[0]);
                assert("m"@[0] != "q"@[0]);
                assert("m"@[0] != "e"@[0]);
                assert(spec_key_for_name("m"@) == Some(Key::KeyM));
                assert("keym"@[3] != "keyw"@[3]);
                assert("keym"@[3] != "keya"@[3]);
                assert("keym"@[3] != "keys"@[3]);
                assert("keym"@[3] != "keyd"@[3]);
                assert("keym"@[3] != "keyq"@[3]);
                assert("keym"@[3] != "keye"@[3]);
                assert(spec_key_for_name("keym"@) == Some(Key::KeyM));
                assert("key_m"@[4] != "key_w"@[4]);
                assert("key_m"@[4] != "key_a"@[4]);
                assert("key_m"@[4] != "key_s"@[4]);
                assert("key_m"@[4] != "key_d"@[4]);
                assert("key_m"@[4] != "key_q"@[4]);
                assert("key_m"@[4] != "key_e"@[4]);
                assert(spec_key_for_name("key_m"@) == Some(Key::KeyM));
            },
            Key::Tab => {
                assert(spec_key_for_name("tab"@) == Some(Key::Tab));
            },
            Key::ArrowUp => {
                assert(spec_key_for_name("arrowup"@) == Some(Key::ArrowUp));
                assert(spec_key_for_name("arrow_up"@) == Some(Key::ArrowUp));
                assert(spec_key_for_name("up"@) == Some(Key::ArrowUp));
            },
            Key::ArrowDown => {
                assert(spec_key_for_name("arrowdown"@) == Some(Key::ArrowDown));
                assert(spec_key_for_name("arrow_down"@) == Some(Key::ArrowDown));
                assert("down"@[0] != "keyw"@[0]);
                assert("down"@[0] != "keya"@[0]);
                assert("down"@[0] != "keys"@[0]);
                assert("down"@[0] != "keyd"@[0]);
                assert("down"@[0] != "keyq"@[0]);
                assert("down"@[0] != "keye"@[0]);
                assert("down"@[0] != "keym"@[0]);
                assert(spec_key_for_name("down"@) == Some(Key::ArrowDown));
            },
            Key::ArrowLeft => {
                assert("arrowleft"@[5] != "arrowdown"@[5]);
                assert(spec_key_for_name("arrowleft"@) == Some(Key::ArrowLeft));
                assert("arrow_left"@[6] != "arrow_down"@[6]);
                assert(spec_key_for_name("arrow_left"@) == Some(Key::ArrowLeft));
                assert("left"@[0] != "keyw"@[0]);
                assert("left"@[0] != "keya"@[0]);
                assert("left"@[0] != "keys"@[0]);
                assert("left"@[0] != "keyd"@[0]);
                assert("left"@[0] != "keyq"@[0]);
                assert("left"@[0] != "keye"@[0]);
                assert("left"@[0] != "keym"@[0]);
                assert("left"@[0] != "down"@[0]);
                assert(spec_key_for_name("left"@) == Some(Key::ArrowLeft));
            },
            Key::ArrowRight => {
                assert("arrowright"@[5] != "arrow_down"@[5]);
                assert("arrowright"@[5] != "arrow_left"@[5]);
                assert(spec_key_for_name("arrowright"@) == Some(Key::ArrowRight));
                assert(spec_key_for_name("arrow_right"@) == Some(Key::ArrowRight));
                assert("right"@[0] != "key_w"@[0]);
                assert("right"@[0] != "key_a"@[0]);
                assert("right"@[0] != "key_s"@[0]);
                assert("right"@[0] != "key_d"@[0]);
                assert("right"@[0] != "key_q"@[0]);
                assert("right"@[0] != "key_e"@[0]);
                assert("right"@[0] != "key_m"@[0]);
                assert(spec_key_for_name("right"@) == Some(Key::ArrowRight));
            },
            Key::PageUp => {
                assert(spec_key_for_name("pageup"@) == Some(Key::PageUp));
                assert("page_up"@[0] != "arrowup"@[0]);
                assert(spec_key_for_name("page_up"@) == Some(Key::PageUp));
            },
            Key::PageDown => {
                assert("pagedown"@[0] != "arrow_up"@[0]);
                assert(spec_key_for_name("pagedown"@) == Some(Key::PageDown));
                assert("page_down"@[0] != "arrowdown"@[0]);
                assert("page_down"@[0] != "arrowleft"@[0]);
                assert(spec_key_for_name("page_down"@) == Some(Key::PageDown));
            },
        }
    }
    if spec_key_for_name(n) == Some(k) {
        match k {
            Key::KeyW => { if n == "w"@ { assert(key_names(k)[0] == n); } if n == "keyw"@ { assert(key_names(k)[1] == n); } if n == "key_w"@ { assert(key_names(k)[2] == n); } },
            Key::KeyA => { if n == "a"@ { assert(key_names(k)[0] == n); } if n == "keya"@ { assert(key_names(k)[1] == n); } if n == "key_a"@ { assert(key_names(k)[2] == n); } },
            Key::KeyS => { if n == "s"@ { assert(key_names(k)[0] == n); } if n == "keys"@ { assert(key_names(k)[1] == n); } if n == "key_s"@ { assert(key_names(k)[2] == n); } },
            Key::KeyD => { if n == "d"@ { assert(key_names(k)[0] == n); } if n == "keyd"@ { assert(key_names(k)[1] == n); } if n == "key_d"@ { assert(key_names(k)[2] == n); } },
            Key::KeyQ => { if n == "q"@ { assert(key_names(k)[0] == n); } if n == "keyq"@ { assert(key_names(k)[1] == n); } if n == "key_q"@ { assert(key_names(k)[2] == n); } },
            Key::KeyE => { if n == "e"@ { assert(key_names(k)[0] == n); } if n == "keye"@ { assert(key_names(k)[1] == n); } if n == "key_e"@ { assert(key_names(k)[2] == n); } },
            Key::KeyM => { if n == "m"@ { assert(key_names(k)[0] == n); } if n == "keym"@ { assert(key_names(k)[1] == n); } if n == "key_m"@ { assert(key_names(k)[2] == n); } },
            Key::Tab => { if n == "tab"@ { assert(key_names(k)[0] == n); } },
            Key::ArrowUp => { if n == "arrowup"@ { assert(key_names(k)[0] == n); } if n == "arrow_up"@ { assert(key_names(k)[1] == n); } if n == "up"@ { assert(key_names(k)[2] == n); } },
            Key::ArrowDown => { if n == "arrowdown"@ { assert(key_names(k)[0] == n); } if n == "arrow_down"@ { assert(key_names(k)[1] == n); } if n == "down"@ { assert(key_names(k)[2] == n); } },
            Key::ArrowLeft => { if n == "arrowleft"@ { assert(key_names(k)[0] == n); } if n == "arrow_left"@ { assert(key_names(k)[1] == n); } if n == "left"@ { assert(key_names(k)[2] == n); } },
            Key::ArrowRight => { if n == "arrowright"@ { assert(key_names(k)[0] == n); } if n == "arrow_right"@ { assert(key_names(k)[1] == n); } if n == "right"@ { assert(key_names(k)[2] == n); } },
            Key::PageUp => { if n == "pageup"@ { assert(key_names(k)[0] == n); } if n == "page_up"@ { assert(key_names(k)[1] == n); } },
            Key::PageDown => { if n == "pagedown"@ { assert(key_names(k)[0] == n); } if n == "page_down"@ { assert(key_names(k)[1] == n); } },
        }
    }
}

} // verus!
