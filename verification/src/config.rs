//! Settings: what the user wrote, read once at the start.

use std::str::FromStr;

use vstd::prelude::*;

use crate::clock::{add_time, later};
use crate::ids::{group_views, opt_view, views};
use crate::preview::PREVIEW_KEY;
use crate::state::{key_views, str_views, SettingsV, State, StateV};
use crate::summon::SUMMONED_KEY;
use crate::text::{
    chars_of, fold_ascii, in_ascii, lemma_trimmed_without, same, slice_of, text_of, trim,
    trimmed,
};

verus! {

broadcast use group_views;

/// A setting that is on or off.
#[derive(Debug, Clone, Copy, PartialEq, Eq, Structural)]
pub enum Flag {
    ShowCwd,
    ShowCwdTilde,
    ShowDeployAnimation,
}

/// What a setting takes.
#[derive(Debug, Clone, Copy)]
pub enum Kind {
    Flag(Flag),
    /// The spelling of a key that the user bound: the name of its action, and an arrow in
    /// place of the name where room is short.
    DirectKey(&'static str, Option<&'static str>),
}

/// One setting that the user can write.
#[derive(Debug, Clone, Copy)]
pub struct Setting {
    pub key: &'static str,
    pub kind: Kind,
}

#[verifier::ext_equal]
pub enum KindV {
    Flag(Flag),
    DirectKey(Seq<char>, Option<Seq<char>>),
}

#[verifier::ext_equal]
pub struct SettingV {
    pub key: Seq<char>,
    pub kind: KindV,
}

impl View for Kind {
    type V = KindV;

    open spec fn view(&self) -> KindV {
        match self {
            Kind::Flag(flag) => KindV::Flag(*flag),
            Kind::DirectKey(label, arrow) => KindV::DirectKey(label@, opt_view(*arrow)),
        }
    }
}

impl View for Setting {
    type V = SettingV;

    open spec fn view(&self) -> SettingV {
        SettingV { key: self.key@, kind: self.kind@ }
    }
}

pub open spec fn flag_setting(key: &str, flag: Flag) -> SettingV {
    SettingV { key: key@, kind: KindV::Flag(flag) }
}

pub open spec fn key_setting(key: &str, label: &str, arrow: Option<Seq<char>>) -> SettingV {
    SettingV { key: key@, kind: KindV::DirectKey(label@, arrow) }
}

/// All settings, in the order of the footer hints.
pub open spec fn setting_table() -> Seq<SettingV> {
    seq![
        flag_setting("show_cwd", Flag::ShowCwd),
        flag_setting("show_cwd_tilde", Flag::ShowCwdTilde),
        flag_setting("show_deploy_animation", Flag::ShowDeployAnimation),
        key_setting("up_key", "up", Some("↑"@)),
        key_setting("down_key", "down", Some("↓"@)),
        key_setting("go_key", "jump", None),
        key_setting("toggle_cwd_key", "cwd", None),
    ]
}

/// All settings, in the order of the footer hints.
pub fn settings() -> (r: Vec<Setting>)
    ensures
        views(r@) == setting_table(),
{
    let mut table: Vec<Setting> = Vec::new();
    table.push(Setting { key: "show_cwd", kind: Kind::Flag(Flag::ShowCwd) });
    table.push(Setting { key: "show_cwd_tilde", kind: Kind::Flag(Flag::ShowCwdTilde) });
    table.push(
        Setting { key: "show_deploy_animation", kind: Kind::Flag(Flag::ShowDeployAnimation) },
    );
    table.push(Setting { key: "up_key", kind: Kind::DirectKey("up", Some("↑")) });
    table.push(Setting { key: "down_key", kind: Kind::DirectKey("down", Some("↓")) });
    table.push(Setting { key: "go_key", kind: Kind::DirectKey("jump", None) });
    table.push(Setting { key: "toggle_cwd_key", kind: Kind::DirectKey("cwd", None) });
    assert(views(table@) =~= setting_table());
    table
}

// --- values ---

/// The configuration as texts.
pub open spec fn pairs(s: Seq<(String, String)>) -> Seq<(Seq<char>, Seq<char>)> {
    s.map_values(|e: (String, String)| (e.0@, e.1@))
}

/// The value under a key.
pub open spec fn lookup(s: Seq<(Seq<char>, Seq<char>)>, key: Seq<char>) -> Option<Seq<char>>
    decreases s.len(),
{
    if s.len() == 0 {
        None
    } else if s[0].0 == key {
        Some(s[0].1)
    } else {
        lookup(s.drop_first(), key)
    }
}

/// A value without the quotes and the white space that one way of writing it leaves on.
pub open spec fn plain_value(raw: Seq<char>) -> Seq<char> {
    let t = trimmed(raw);
    if t.len() >= 2 && t[0] == '"' && t.last() == '"' {
        trimmed(t.subrange(1, t.len() - 1))
    } else {
        t
    }
}

fn find_value(configuration: &Vec<(String, String)>, key: &str) -> (r: Option<String>)
    ensures
        opt_view(r) == lookup(pairs(configuration@), key@),
{
    let ghost v = pairs(configuration@);
    let mut i: usize = 0;
    assert(v.skip(0) =~= v);
    while i < configuration.len()
        invariant
            i <= configuration.len(),
            v == pairs(configuration@),
            lookup(v, key@) == lookup(v.skip(i as int), key@),
        decreases configuration.len() - i,
    {
        let ghost rest = v.skip(i as int);
        assert(rest[0] == (configuration[i as int].0@, configuration[i as int].1@));
        assert(rest.drop_first() =~= v.skip(i + 1));
        if same(configuration[i].0.as_str(), key) {
            return Some(configuration[i].1.clone());
        }
        i += 1;
    }
    None
}

/// Strips the quotes and the white space around a value.
pub fn normalize_value(raw: &str) -> (r: String)
    ensures
        r@ == plain_value(raw@),
{
    let value = trim(raw);
    let chars = chars_of(value.as_str());
    if chars.len() >= 2 && chars[0] == '"' && chars[chars.len() - 1] == '"' {
        let inner = slice_of(&chars, 1, chars.len() - 1);
        trim(inner.as_str())
    } else {
        value
    }
}

/// The setting is written and on.
pub open spec fn switched_on(configuration: Seq<(Seq<char>, Seq<char>)>, key: Seq<char>) -> bool {
    match lookup(configuration, key) {
        Some(raw) => plain_value(raw) == "true"@,
        None => false,
    }
}

fn is_on(configuration: &Vec<(String, String)>, key: &str) -> (r: bool)
    ensures
        r == switched_on(pairs(configuration@), key@),
{
    match find_value(configuration, key) {
        Some(raw) => {
            let value = normalize_value(raw.as_str());
            same(value.as_str(), "true")
        },
        None => false,
    }
}

/// Whether this instance was summoned.
pub fn summoned(configuration: &Vec<(String, String)>) -> (r: bool)
    ensures
        r == switched_on(pairs(configuration@), SUMMONED_KEY@),
{
    is_on(configuration, SUMMONED_KEY)
}

/// Whether this instance is a preview.
pub fn is_preview(configuration: &Vec<(String, String)>) -> (r: bool)
    ensures
        r == switched_on(pairs(configuration@), PREVIEW_KEY@),
{
    is_on(configuration, PREVIEW_KEY)
}

// --- keys ---

/// A key as the host reads it: the names of its modifiers in their order, its character if it
/// is one, and its name. None where the host cannot read it.
pub uninterp spec fn host_key(spelling: Seq<char>) -> Option<
    (Seq<Seq<char>>, Option<char>, Seq<char>),
>;

/// The name of what `str::to_lowercase` returns.
pub uninterp spec fn lower_case(s: Seq<char>) -> Seq<char>;

/// All characters are in the ASCII range.
pub open spec fn ascii(s: Seq<char>) -> bool {
    forall|i: int| 0 <= i < s.len() ==> in_ascii(#[trigger] s[i])
}

/// A text in lower case.
pub open spec fn lowered(s: Seq<char>) -> Seq<char> {
    if ascii(s) {
        s.map_values(|c: char| fold_ascii(c))
    } else {
        lower_case(s)
    }
}

/// A key that was read, as texts.
pub open spec fn key_texts(key: Option<(Vec<String>, Option<char>, String)>) -> Option<
    (Seq<Seq<char>>, Option<char>, Seq<char>),
> {
    match key {
        Some((modifiers, character, name)) => Some((views(modifiers@), character, name@)),
        None => None,
    }
}

/// Calls `KeyWithModifier::from_str` of `zellij-tile`, which reads the host's own spelling of
/// a key: words separated by white space, the modifiers first. The modifiers and the bare key
/// come back by the texts that their `Display` gives. Claimed is only that the result depends
/// on the spelling alone.
#[verifier::external_body]
fn read_key(spelling: &str) -> (r: Option<(Vec<String>, Option<char>, String)>)
    ensures
        key_texts(r) == host_key(spelling@),
{
    let key = zellij_tile::prelude::KeyWithModifier::from_str(spelling).ok()?;
    let modifiers = key.key_modifiers.iter().map(|modifier| modifier.to_string()).collect();
    let character = match key.bare_key {
        zellij_tile::prelude::BareKey::Char(c) => Some(c),
        _ => None,
    };
    Some((modifiers, character, key.bare_key.to_string()))
}

/// Calls `str::to_lowercase`. Of an ASCII text it makes the capitals from `A` to `Z` small and
/// keeps the rest; of any other text it is only claimed that the result depends on the text
/// alone.
#[verifier::external_body]
fn lowercase(s: &str) -> (r: String)
    ensures
        ascii(s@) ==> r@ == s@.map_values(|c: char| fold_ascii(c)),
        !ascii(s@) ==> r@ == lower_case(s@),
{
    s.to_lowercase()
}

/// The bare key as it is shown: words for arrows and the space, the character itself, or the
/// host's name in lower case.
pub open spec fn bare_spelling(character: Option<char>, name: Seq<char>) -> Seq<char> {
    match character {
        Some(c) => if c == ' ' {
            "space"@
        } else {
            seq![c]
        },
        None => if name == "←"@ {
            "left"@
        } else if name == "→"@ {
            "right"@
        } else if name == "↑"@ {
            "up"@
        } else if name == "↓"@ {
            "down"@
        } else {
            lowered(name)
        },
    }
}

/// The modifiers in lower case, each with a plus behind it.
pub open spec fn modifier_spelling(modifiers: Seq<Seq<char>>) -> Seq<char>
    decreases modifiers.len(),
{
    if modifiers.len() == 0 {
        Seq::empty()
    } else {
        modifier_spelling(modifiers.drop_last()) + lowered(modifiers.last()).push('+')
    }
}

/// The key as it is shown: `alt+u`.
pub open spec fn key_spelling(
    modifiers: Seq<Seq<char>>,
    character: Option<char>,
    name: Seq<char>,
) -> Seq<char> {
    modifier_spelling(modifiers) + bare_spelling(character, name)
}

/// Pluses count as spaces, so that both ways to spell a key can be read.
pub open spec fn spaced(raw: Seq<char>) -> Seq<char> {
    raw.map_values(
        |c: char|
            if c == '+' {
                ' '
            } else {
                c
            },
    )
}

/// A spelling of a key as it is shown; none where it is no key.
pub open spec fn shown_key(raw: Seq<char>) -> Option<Seq<char>> {
    match host_key(spaced(raw)) {
        Some((modifiers, character, name)) => Some(key_spelling(modifiers, character, name)),
        None => None,
    }
}

pub fn format_bare_key(character: Option<char>, name: &str) -> (r: String)
    ensures
        r@ == bare_spelling(character, name@),
{
    match character {
        Some(c) => if c == ' ' {
            "space".to_owned()
        } else {
            let mut out = String::new();
            out.push(c);
            assert(out@ =~= seq![c]);
            out
        },
        None => if same(name, "←") {
            "left".to_owned()
        } else if same(name, "→") {
            "right".to_owned()
        } else if same(name, "↑") {
            "up".to_owned()
        } else if same(name, "↓") {
            "down".to_owned()
        } else {
            lowercase(name)
        },
    }
}

/// The key as it is shown, from its modifiers, its character if it is one, and its name.
pub fn format_key(modifiers: &Vec<String>, character: Option<char>, name: &str) -> (r: String)
    ensures
        r@ == key_spelling(views(modifiers@), character, name@),
{
    let ghost v = views(modifiers@);
    let mut out = String::new();
    let mut i: usize = 0;
    assert(v.take(0) =~= Seq::empty());
    while i < modifiers.len()
        invariant
            i <= modifiers.len(),
            v == views(modifiers@),
            out@ == modifier_spelling(v.take(i as int)),
        decreases modifiers.len() - i,
    {
        assert(v.take(i + 1).drop_last() =~= v.take(i as int));
        assert(v.take(i + 1).last() == modifiers[i as int]@);
        let modifier = lowercase(modifiers[i].as_str());
        out.push_str(modifier.as_str());
        out.push('+');
        assert(out@ =~= modifier_spelling(v.take(i + 1)));
        i += 1;
    }
    assert(v.take(i as int) =~= v);
    let bare = format_bare_key(character, name);
    out.push_str(bare.as_str());
    out
}

/// The spelling of a key as it is shown. None where it is no key.
pub fn normalize_key(raw: &str) -> (r: Option<String>)
    ensures
        opt_view(r) == shown_key(raw@),
{
    let chars = chars_of(raw);
    let mut words: Vec<char> = Vec::new();
    let mut i: usize = 0;
    while i < chars.len()
        invariant
            i <= chars.len(),
            chars@ == raw@,
            words@ =~= spaced(raw@).take(i as int),
        decreases chars.len() - i,
    {
        if chars[i] == '+' {
            words.push(' ');
        } else {
            words.push(chars[i]);
        }
        i += 1;
    }
    assert(words@ =~= spaced(raw@));
    let spelling = text_of(&words);
    match read_key(spelling.as_str()) {
        Some((modifiers, character, name)) => Some(
            format_key(&modifiers, character, name.as_str()),
        ),
        None => None,
    }
}

// --- the configuration ---

/// The settings that were read. One that could not be read is noted and keeps its default.
#[derive(Debug)]
pub struct Config {
    pub show_cwd: bool,
    pub show_cwd_tilde: bool,
    pub show_deploy_animation: bool,
    pub direct_keys: Vec<(&'static str, String)>,
    pub warnings: Vec<&'static str>,
}

#[verifier::ext_equal]
pub struct ConfigV {
    pub show_cwd: bool,
    pub show_cwd_tilde: bool,
    pub show_deploy_animation: bool,
    pub direct_keys: Seq<(Seq<char>, Seq<char>)>,
    pub warnings: Seq<Seq<char>>,
}

impl View for Config {
    type V = ConfigV;

    open spec fn view(&self) -> ConfigV {
        ConfigV {
            show_cwd: self.show_cwd,
            show_cwd_tilde: self.show_cwd_tilde,
            show_deploy_animation: self.show_deploy_animation,
            direct_keys: key_views(self.direct_keys@),
            warnings: str_views(self.warnings@),
        }
    }
}

impl ConfigV {
    pub open spec fn defaults() -> ConfigV {
        ConfigV {
            show_cwd: false,
            show_cwd_tilde: false,
            show_deploy_animation: true,
            direct_keys: Seq::empty(),
            warnings: Seq::empty(),
        }
    }

    pub open spec fn with_flag(self, flag: Flag, on: bool) -> ConfigV {
        match flag {
            Flag::ShowCwd => ConfigV { show_cwd: on, ..self },
            Flag::ShowCwdTilde => ConfigV { show_cwd_tilde: on, ..self },
            Flag::ShowDeployAnimation => ConfigV { show_deploy_animation: on, ..self },
        }
    }

    /// A value for a setting. Only `true` and `false` switch a flag; a spelling that is no key
    /// is shown as it is written.
    pub open spec fn with_value(self, setting: SettingV, value: Seq<char>) -> ConfigV {
        match setting.kind {
            KindV::Flag(flag) => if value == "true"@ {
                self.with_flag(flag, true)
            } else if value == "false"@ {
                self.with_flag(flag, false)
            } else {
                ConfigV { warnings: self.warnings.push(setting.key), ..self }
            },
            KindV::DirectKey(_, _) => match shown_key(value) {
                Some(shown) => ConfigV {
                    direct_keys: self.direct_keys.push((setting.key, shown)),
                    ..self
                },
                None => ConfigV {
                    direct_keys: self.direct_keys.push((setting.key, value)),
                    warnings: self.warnings.push(setting.key),
                    ..self
                },
            },
        }
    }

    /// The settings of a configuration; an empty value counts as not written.
    pub open spec fn of(
        configuration: Seq<(Seq<char>, Seq<char>)>,
        table: Seq<SettingV>,
    ) -> ConfigV
        decreases table.len(),
    {
        if table.len() == 0 {
            ConfigV::defaults()
        } else {
            let front = ConfigV::of(configuration, table.drop_last());
            match lookup(configuration, table.last().key) {
                Some(raw) => if plain_value(raw).len() == 0 {
                    front
                } else {
                    front.with_value(table.last(), plain_value(raw))
                },
                None => front,
            }
        }
    }
}

proof fn lemma_key_views_push(s: Seq<(&'static str, String)>, x: (&'static str, String))
    ensures
        key_views(s.push(x)) == key_views(s).push((x.0@, x.1@)),
{
    assert(key_views(s.push(x)) =~= key_views(s).push((x.0@, x.1@)));
}

proof fn lemma_str_views_push(s: Seq<&'static str>, x: &'static str)
    ensures
        str_views(s.push(x)) == str_views(s).push(x@),
{
    assert(str_views(s.push(x)) =~= str_views(s).push(x@));
}

impl Config {
    fn warn(&mut self, key: &'static str)
        ensures
            final(self)@ == (ConfigV { warnings: old(self)@.warnings.push(key@), ..old(self)@ }),
    {
        proof {
            lemma_str_views_push(self.warnings@, key);
        }
        self.warnings.push(key);
    }

    fn add_key(&mut self, key: &'static str, shown: String)
        ensures
            final(self)@ == (ConfigV {
                direct_keys: old(self)@.direct_keys.push((key@, shown@)),
                ..old(self)@
            }),
    {
        proof {
            lemma_key_views_push(self.direct_keys@, (key, shown));
        }
        self.direct_keys.push((key, shown));
    }

    fn set_flag(&mut self, flag: Flag, on: bool)
        ensures
            final(self)@ == old(self)@.with_flag(flag, on),
    {
        match flag {
            Flag::ShowCwd => {
                self.show_cwd = on;
            },
            Flag::ShowCwdTilde => {
                self.show_cwd_tilde = on;
            },
            Flag::ShowDeployAnimation => {
                self.show_deploy_animation = on;
            },
        }
    }

    fn apply(&mut self, setting: &Setting, value: String)
        ensures
            final(self)@ == old(self)@.with_value(setting@, value@),
    {
        match setting.kind {
            Kind::Flag(flag) => {
                if same(value.as_str(), "true") {
                    self.set_flag(flag, true);
                } else if same(value.as_str(), "false") {
                    self.set_flag(flag, false);
                } else {
                    self.warn(setting.key);
                }
            },
            Kind::DirectKey(_, _) => {
                match normalize_key(value.as_str()) {
                    Some(shown) => self.add_key(setting.key, shown),
                    None => {
                        self.warn(setting.key);
                        self.add_key(setting.key, value);
                    },
                }
            },
        }
    }

    /// Reads the settings of a configuration.
    pub fn parse(configuration: &Vec<(String, String)>) -> (r: Config)
        ensures
            r@ == ConfigV::of(pairs(configuration@), setting_table()),
    {
        let table = settings();
        let ghost v = views(table@);
        let mut config = Config {
            show_cwd: false,
            show_cwd_tilde: false,
            show_deploy_animation: true,
            direct_keys: Vec::new(),
            warnings: Vec::new(),
        };
        assert(config@ =~= ConfigV::defaults());
        let mut i: usize = 0;
        assert(v.take(0) =~= Seq::empty());
        while i < table.len()
            invariant
                i <= table.len(),
                v == views(table@),
                config@ == ConfigV::of(pairs(configuration@), v.take(i as int)),
            decreases table.len() - i,
        {
            assert(v.take(i + 1).drop_last() =~= v.take(i as int));
            assert(v.take(i + 1).last() == table[i as int]@);
            if let Some(raw) = find_value(configuration, table[i].key) {
                let value = normalize_value(raw.as_str());
                if !value.as_str().is_empty() {
                    config.apply(&table[i], value);
                }
            }
            i += 1;
        }
        assert(v.take(i as int) =~= v);
        config
    }
}

/// For how long the footer warns of settings that could not be read, in microseconds.
pub const CONFIG_WARNING_TIME: u64 = 5_000_000;

impl StateV {
    pub open spec fn with_config(self, config: SettingsV) -> StateV {
        StateV { config, ..self }
    }

    pub open spec fn apply_config(self, c: ConfigV) -> StateV {
        self.with_config(
            SettingsV {
                show_cwd: c.show_cwd,
                show_cwd_tilde: c.show_cwd_tilde,
                show_deploy_animation: c.show_deploy_animation,
                direct_keys: c.direct_keys,
                config_warnings: c.warnings,
                ..self.config
            },
        )
    }

    /// The footer warns of settings for a while, unless a sub-mode needs it.
    pub open spec fn showing_config_warning(self) -> bool {
        self.config.config_warnings.len() > 0 && self.config.config_warning_until is Some
            && !self.nav.help_overlay && self.nav.termination is None && self.nav.search is None
            && self.nav.jump is None
    }

    /// The warning starts, if there is something to warn of and it did not start yet.
    pub open spec fn arm_config_warning(self) -> StateV {
        if self.config.config_warnings.len() == 0 || self.config.config_warning_until is Some {
            self
        } else {
            self.with_config(
                SettingsV {
                    config_warning_until: Some(later(self.clock.elapsed, CONFIG_WARNING_TIME)),
                    ..self.config
                },
            ).arm_timer()
        }
    }

    /// The warning is over.
    pub open spec fn config_warning_due(self) -> bool {
        self.config.config_warning_until is Some && self.config.config_warning_until->0
            <= self.clock.elapsed
    }

    pub open spec fn expire_config_warning(self) -> StateV {
        if self.config_warning_due() {
            self.with_config(
                SettingsV {
                    config_warning_until: None,
                    config_warnings: Seq::empty(),
                    ..self.config
                },
            )
        } else {
            self
        }
    }
}

impl State {
    /// Takes over the settings of a configuration.
    pub fn apply_config(&mut self, configuration: &Vec<(String, String)>)
        ensures
            final(self)@ == old(self)@.apply_config(
                ConfigV::of(pairs(configuration@), setting_table()),
            ),
    {
        let config = Config::parse(configuration);
        self.config.show_cwd = config.show_cwd;
        self.config.show_cwd_tilde = config.show_cwd_tilde;
        self.config.show_deploy_animation = config.show_deploy_animation;
        self.config.direct_keys = config.direct_keys;
        self.config.config_warnings = config.warnings;
    }

    pub fn showing_config_warning(&self) -> (r: bool)
        ensures
            r == self@.showing_config_warning(),
    {
        self.config.config_warnings.len() > 0 && self.config.config_warning_until.is_some()
            && !self.nav.help_overlay && self.nav.termination.is_none()
            && self.nav.search.is_none() && self.nav.jump.is_none()
    }

    pub fn arm_config_warning(&mut self)
        ensures
            final(self)@ == old(self)@.arm_config_warning(),
    {
        if self.config.config_warnings.len() == 0 || self.config.config_warning_until.is_some() {
            return ;
        }
        self.config.config_warning_until = Some(
            add_time(self.clock.elapsed, CONFIG_WARNING_TIME),
        );
        self.arm_timer();
    }

    /// Ends the warning when its time is over. Returns whether to draw.
    pub fn expire_config_warning(&mut self) -> (r: bool)
        ensures
            final(self)@ == old(self)@.expire_config_warning(),
            r == old(self)@.config_warning_due(),
    {
        match self.config.config_warning_until {
            Some(until) => if until <= self.clock.elapsed {
                self.config.config_warning_until = None;
                self.config.config_warnings = Vec::new();
                assert(str_views(self.config.config_warnings@) =~= Seq::empty());
                true
            } else {
                false
            },
            None => false,
        }
    }
}

// --- laws ---

/// The value is written in quotes.
pub open spec fn in_quotes(raw: Seq<char>) -> bool {
    let t = trimmed(raw);
    t.len() >= 2 && t[0] == '"' && t.last() == '"'
}

pub open spec fn quoted(raw: Seq<char>) -> Seq<char> {
    seq!['"'] + raw + seq!['"']
}

/// The configuration with every value in quotes that holds none.
pub open spec fn all_quoted(configuration: Seq<(Seq<char>, Seq<char>)>) -> Seq<
    (Seq<char>, Seq<char>),
> {
    configuration.map_values(
        |e: (Seq<char>, Seq<char>)|
            if e.1.contains('"') {
                e
            } else {
                (e.0, quoted(e.1))
            },
    )
}

/// Both ways of writing a value mean the same: quotes around it do not count, and neither does
/// the white space inside and outside them.
pub proof fn law_quotes_around_value(value: Seq<char>)
    requires
        !in_quotes(value),
    ensures
        plain_value(value) == trimmed(value),
        plain_value(quoted(value)) == trimmed(value),
{
    let q = quoted(value);
    assert(q[0] == '"');
    assert(q[q.len() - 1] == '"');
    assert(trimmed(q) == q);
    assert(q.subrange(1, q.len() - 1) =~= value);
}

proof fn lemma_lookup_quoted(configuration: Seq<(Seq<char>, Seq<char>)>, key: Seq<char>)
    ensures
        lookup(all_quoted(configuration), key) is Some == lookup(configuration, key) is Some,
        lookup(configuration, key) is Some ==> plain_value(
            lookup(all_quoted(configuration), key)->0,
        ) == plain_value(lookup(configuration, key)->0),
    decreases configuration.len(),
{
    if configuration.len() > 0 {
        let rest = configuration.drop_first();
        let value = configuration[0].1;
        assert(all_quoted(configuration).drop_first() =~= all_quoted(rest));
        lemma_lookup_quoted(rest, key);
        if !value.contains('"') {
            let t = trimmed(value);
            lemma_trimmed_without(value, '"');
            if t.len() > 0 {
                assert(t.contains(t[0]));
            }
            law_quotes_around_value(value);
        }
    }
}

/// A whole configuration means the same with its values in quotes and without them, blank
/// values among them.
pub proof fn law_quotes_do_not_count(
    configuration: Seq<(Seq<char>, Seq<char>)>,
    table: Seq<SettingV>,
    key: Seq<char>,
)
    ensures
        ConfigV::of(all_quoted(configuration), table) == ConfigV::of(configuration, table),
        switched_on(all_quoted(configuration), key) == switched_on(configuration, key),
    decreases table.len(),
{
    lemma_lookup_quoted(configuration, key);
    if table.len() > 0 {
        law_quotes_do_not_count(configuration, table.drop_last(), key);
        lemma_lookup_quoted(configuration, table.last().key);
    }
}

/// A configuration that writes nothing leaves every default, and warns of nothing.
pub proof fn law_defaults(table: Seq<SettingV>)
    ensures
        ConfigV::of(Seq::empty(), table) == ConfigV::defaults(),
    decreases table.len(),
{
    if table.len() > 0 {
        law_defaults(table.drop_last());
    }
}

/// A setting that could not be read is always warned of.
pub proof fn law_bad_flag_warns(c: ConfigV, key: Seq<char>, flag: Flag, value: Seq<char>)
    requires
        value != "true"@,
        value != "false"@,
    ensures
        c.with_value(SettingV { key, kind: KindV::Flag(flag) }, value).warnings.contains(key),
        c.with_value(SettingV { key, kind: KindV::Flag(flag) }, value) == (ConfigV {
            warnings: c.warnings.push(key),
            ..c
        }),
{
    let w = c.warnings.push(key);
    assert(w[w.len() - 1] == key);
}

} // verus!
