//! The launcher's own settings, kept in an INI file (`bugle.ini`) next to its
//! executable: whether to enable BattlEye when launching the game.
use vstd::prelude::*;

use ini::Ini;

use crate::game::engine::bytes::{is_high_surrogate, is_low_surrogate, le_units};
use crate::ini_doc::{no_entries, first_value, ini_entries, ini_get, ini_new, ini_parse, ini_set, IniEntries};
use crate::text::{ascii_lower_seq, chars_eq_str, chars_of, lower_chars, trim, trim_chars};

verus! {

/// Whether to enable BattlEye: decided at each launch, or always the same way.
#[derive(Debug, Clone, Copy, PartialEq, Eq, Structural)]
pub enum BattlEyeUsage {
    Auto,
    Always(bool),
}

impl Default for BattlEyeUsage {
    fn default() -> (r: Self)
        ensures
            r == BattlEyeUsage::Always(true),
    {
        BattlEyeUsage::Always(true)
    }
}

/// The launcher's settings.
#[derive(Debug, Clone, Copy, PartialEq, Eq, Structural)]
pub struct Config {
    pub use_battleye: BattlEyeUsage,
}

impl Default for Config {
    fn default() -> (r: Self)
        ensures
            r.use_battleye == BattlEyeUsage::Always(true),
    {
        Config { use_battleye: BattlEyeUsage::Always(true) }
    }
}

/// What can go wrong while loading or saving the settings.
#[derive(Debug, Clone, PartialEq, Eq)]
pub enum ConfigError {
    /// The file could not be read or written; the text says why.
    Io(String),
    /// The file is not a valid INI document.
    Parse,
}

/// Loads and saves the settings.
pub trait ConfigPersister {
    fn load(&self) -> Result<Config, ConfigError>;

    fn save(&self, config: &Config) -> Result<(), ConfigError>;
}

/// Settings that are not kept: loading gives the defaults, saving does nothing.
pub struct TransientConfig;

impl ConfigPersister for TransientConfig {
    fn load(&self) -> (r: Result<Config, ConfigError>)
        ensures
            r == Ok::<Config, ConfigError>(Config { use_battleye: BattlEyeUsage::Always(true) }),
    {
        Ok(Config::default())
    }

    fn save(&self, config: &Config) -> (r: Result<(), ConfigError>)
        ensures
            r is Ok,
    {
        Ok(())
    }
}

/// The key of the BattlEye setting, in the general section.
pub const KEY_USE_BATTLEYE: &'static str = "UseBattlEye";

/// The value that leaves the choice to each launch.
pub const BATTLEYE_AUTO: &'static str = "auto";

/// The value that always enables BattlEye.
pub const BATTLEYE_ALWAYS: &'static str = "always";

/// The value that never enables BattlEye.
pub const BATTLEYE_NEVER: &'static str = "never";

/// The BattlEye setting that a stored value gives: `auto`, `always` or `never`, ignoring
/// surrounding white space and ASCII case; anything else, or no value, is the default.
pub open spec fn spec_battleye_usage(value: Option<Seq<char>>) -> BattlEyeUsage {
    match value {
        None => BattlEyeUsage::Always(true),
        Some(v) => {
            let t = ascii_lower_seq(trim(v));
            if t == BATTLEYE_AUTO@ {
                BattlEyeUsage::Auto
            } else if t == BATTLEYE_ALWAYS@ {
                BattlEyeUsage::Always(true)
            } else if t == BATTLEYE_NEVER@ {
                BattlEyeUsage::Always(false)
            } else {
                BattlEyeUsage::Always(true)
            }
        },
    }
}

/// The stored value of a BattlEye setting.
pub open spec fn spec_battleye_text(u: BattlEyeUsage) -> Seq<char> {
    match u {
        BattlEyeUsage::Auto => BATTLEYE_AUTO@,
        BattlEyeUsage::Always(true) => BATTLEYE_ALWAYS@,
        BattlEyeUsage::Always(false) => BATTLEYE_NEVER@,
    }
}

/// The BattlEye setting that a stored value gives.
pub fn battleye_usage_from(value: Option<&str>) -> (r: BattlEyeUsage)
    ensures
        r == spec_battleye_usage(
            match value {
                Some(v) => Some(v@),
                None => None,
            },
        ),
{
    match value {
        None => BattlEyeUsage::Always(true),
        Some(v) => {
            let cs = chars_of(v);
            let t = trim_chars(cs.as_slice());
            let t = lower_chars(t.as_slice());
            if chars_eq_str(t.as_slice(), BATTLEYE_AUTO) {
                BattlEyeUsage::Auto
            } else if chars_eq_str(t.as_slice(), BATTLEYE_ALWAYS) {
                BattlEyeUsage::Always(true)
            } else if chars_eq_str(t.as_slice(), BATTLEYE_NEVER) {
                BattlEyeUsage::Always(false)
            } else {
                BattlEyeUsage::Always(true)
            }
        },
    }
}

/// The stored value of a BattlEye setting.
pub fn battleye_usage_text(u: BattlEyeUsage) -> (r: &'static str)
    ensures
        r@ == spec_battleye_text(u),
{
    match u {
        BattlEyeUsage::Auto => BATTLEYE_AUTO,
        BattlEyeUsage::Always(true) => BATTLEYE_ALWAYS,
        BattlEyeUsage::Always(false) => BATTLEYE_NEVER,
    }
}

/// The settings that a document gives.
pub open spec fn spec_config(e: IniEntries) -> Config {
    Config { use_battleye: spec_battleye_usage(first_value(e, None, KEY_USE_BATTLEYE@)) }
}

/// The settings that a document holds.
pub fn config_from_ini(ini: &Ini) -> (r: Config)
    ensures
        r == spec_config(ini_entries(*ini)),
{
    let v = ini_get(ini, None, KEY_USE_BATTLEYE);
    let u = match &v {
        Some(t) => battleye_usage_from(Some(t.as_str())),
        None => battleye_usage_from(None),
    };
    Config { use_battleye: u }
}

/// The document that stores `config`: only the BattlEye setting, in the general
/// section.
pub fn config_to_ini(config: &Config) -> (r: Ini)
    ensures
        ini_entries(r) == no_entries().insert(
            (None, KEY_USE_BATTLEYE@),
            seq![spec_battleye_text(config.use_battleye)],
        ),
{
    let mut ini = ini_new();
    ini_set(&mut ini, None, KEY_USE_BATTLEYE, battleye_usage_text(config.use_battleye));
    ini
}

/// Storing settings and reading them back gives the same settings.
pub proof fn lemma_config_round_trip(config: Config)
    ensures
        spec_config(
            no_entries().insert(
                (None, KEY_USE_BATTLEYE@),
                seq![spec_battleye_text(config.use_battleye)],
            ),
        ) == config,
{
    reveal_strlit("auto");
    reveal_strlit("always");
    reveal_strlit("never");
    let t = spec_battleye_text(config.use_battleye);
    assert(trim(t) == t) by {
        crate::text::lemma_trim_no_space(t);
    }
    assert(ascii_lower_seq(t) =~= t);
}

/// Settings kept in an INI file.
pub struct IniConfigPersister {
    config_path: String,
}

impl IniConfigPersister {
    /// Settings kept in the file at `path`.
    pub fn new(path: String) -> (r: Self)
        ensures
            r.path()@ == path@,
    {
        IniConfigPersister { config_path: path }
    }

    /// The path of the file.
    pub closed spec fn path(&self) -> String {
        self.config_path
    }

    /// The path of the file.
    pub fn config_path(&self) -> (r: &str)
        ensures
            r@ == self.path()@,
    {
        self.config_path.as_str()
    }

    /// The settings that the text of the file gives.
    pub fn load_text(&self, text: &str) -> (r: Result<Config, ConfigError>)
        ensures
            r matches Ok(c) ==> (crate::ini_doc::ini_parsed(text@) matches Some(e) && c == spec_config(e)),
            r matches Err(e) ==> crate::ini_doc::ini_parsed(text@) is None && e == ConfigError::Parse,
    {
        match ini_parse(text) {
            Ok(ini) => Ok(config_from_ini(&ini)),
            Err(_) => Err(ConfigError::Parse),
        }
    }

    /// The document to write to the file.
    pub fn save_ini(&self, config: &Config) -> (r: Ini)
        ensures
            ini_entries(r) == no_entries().insert(
                (None, KEY_USE_BATTLEYE@),
                seq![spec_battleye_text(config.use_battleye)],
            ),
    {
        config_to_ini(config)
    }
}

// ---------------------------------------------------------------------------
// Text of files
// ---------------------------------------------------------------------------

/// Decodes UTF-16 units, replacing each unpaired surrogate by U+FFFD.
pub open spec fn utf16_lossy_text(u: Seq<u16>) -> Seq<char>
    decreases u.len(),
{
    if u.len() == 0 {
        seq![]
    } else if is_high_surrogate(u[0]) && u.len() >= 2 && is_low_surrogate(u[1]) {
        seq![(0x10000 + ((u[0] - 0xd800) as int) * 0x400 + ((u[1] - 0xdc00) as int)) as char]
            + utf16_lossy_text(u.subrange(2, u.len() as int))
    } else if is_high_surrogate(u[0]) || is_low_surrogate(u[0]) {
        seq!['\u{FFFD}'] + utf16_lossy_text(u.drop_first())
    } else {
        seq![u[0] as char] + utf16_lossy_text(u.drop_first())
    }
}

/// Decodes UTF-16 units, replacing unpaired surrogates (`String::from_utf16_lossy`).
#[verifier::external_body]
fn utf16_lossy(units: &[u16]) -> (r: String)
    ensures
        r@ == utf16_lossy_text(units@),
{
    String::from_utf16_lossy(units)
}

/// The text that decoding `bytes` as UTF-8 gives, each invalid sequence replaced by
/// U+FFFD.
pub uninterp spec fn utf8_lossy_text(bytes: Seq<u8>) -> Seq<char>;

/// Decodes UTF-8, replacing invalid sequences (`String::from_utf8_lossy`).
#[verifier::external_body]
fn utf8_lossy(bytes: &[u8]) -> (r: String)
    ensures
        r@ == utf8_lossy_text(bytes@),
{
    String::from_utf8_lossy(bytes).into_owned()
}

/// The text of a file: UTF-16LE after the byte-order mark `FF FE` (an odd last byte is
/// dropped), UTF-8 otherwise; undecodable data becomes U+FFFD.
pub open spec fn spec_text_lossy(bytes: Seq<u8>) -> Seq<char> {
    if bytes.len() >= 2 && bytes[0] == 0xff && bytes[1] == 0xfe {
        utf16_lossy_text(le_units(bytes.skip(2)))
    } else {
        utf8_lossy_text(bytes)
    }
}

/// The text of a file.
pub fn text_lossy(bytes: &[u8]) -> (r: String)
    ensures
        r@ == spec_text_lossy(bytes@),
{
    if bytes.len() >= 2 && bytes[0] == 0xff && bytes[1] == 0xfe {
        let n = (bytes.len() - 2) / 2;
        assert(2 * n + 2 <= bytes@.len()) by (nonlinear_arith)
            requires
                n == (bytes@.len() - 2) / 2,
                bytes@.len() >= 2,
        ;
        let mut units: Vec<u16> = Vec::new();
        let mut i: usize = 0;
        while i < n
            invariant
                bytes@.len() >= 2,
                bytes@.len() <= usize::MAX,
                n == (bytes@.len() - 2) / 2,
                2 * n + 2 <= bytes@.len(),
                i <= n,
                units@ =~= le_units(bytes@.skip(2)).take(i as int),
            decreases n - i,
        {
            let k: usize = 2 * i + 2;
            let lo = bytes[k] as u16;
            let hi = bytes[k + 1] as u16;
            units.push(lo + 256 * hi);
            i += 1;
        }
        assert(units@ =~= le_units(bytes@.skip(2)));
        utf16_lossy(units.as_slice())
    } else {
        utf8_lossy(bytes)
    }
}

} // verus!
