//! Settings: what is kept of them, what they default to, and how they change.

use vstd::prelude::*;
use vstd::string::StrSliceExecFns;

use crate::language::AUTO;
use crate::text::{
    blank, is_blank, lemma_blank_trimmed, opt_chars, texts, trimmed, unless_blank,
    unless_blank_chars,
};

verus! {

/// The model that is asked unless another one is chosen.
pub const DEFAULT_MODEL: &'static str = "gemini-3.5-flash";

/// The audio source that is used unless another one is chosen.
pub const DEFAULT_AUDIO_SOURCE: &'static str = "mic";

/// The rule that is in force before any rules are kept.
pub const DEFAULT_RULE: &'static str = "web_search";

/// The instructions for the agent before the user has written any.
pub const DEFAULT_AGENT_CONFIG: &'static str =
    "# MEETCLAW.md\n\nInstructions for the in-meeting assistant. Edit freely.\n\n- Be concise. Propose an action only when it clearly helps.\n- Prefer read-only commands; explain destructive ones before proposing them.\n\n## Context\n\n(Describe your projects, tools, and preferences here.)\n";

/// The settings that are kept. What is not set has its default.
pub struct Settings {
    pub model: Option<String>,
    pub device: Option<String>,
    pub save_dir: Option<String>,
    pub language: Option<String>,
    pub audio_source: Option<String>,
    pub camera: Option<bool>,
    /// The rules by which tool calls run without a question.
    pub agent_allow_rules: Option<Vec<String>>,
    /// Whether all tool calls run without a question.
    pub agent_auto: Option<bool>,
    /// The directory that shell commands run in.
    pub agent_workspace: Option<String>,
}

/// The contents of `Settings`.
#[verifier::ext_equal]
pub struct SettingsText {
    pub model: Option<Seq<char>>,
    pub device: Option<Seq<char>>,
    pub save_dir: Option<Seq<char>>,
    pub language: Option<Seq<char>>,
    pub audio_source: Option<Seq<char>>,
    pub camera: Option<bool>,
    pub agent_allow_rules: Option<Seq<Seq<char>>>,
    pub agent_auto: Option<bool>,
    pub agent_workspace: Option<Seq<char>>,
}

/// The contents of an optional list.
pub open spec fn some_texts(list: Option<Vec<String>>) -> Option<Seq<Seq<char>>> {
    match list {
        Some(l) => Some(texts(l@)),
        None => None,
    }
}

impl View for Settings {
    type V = SettingsText;

    open spec fn view(&self) -> SettingsText {
        SettingsText {
            model: opt_chars(self.model),
            device: opt_chars(self.device),
            save_dir: opt_chars(self.save_dir),
            language: opt_chars(self.language),
            audio_source: opt_chars(self.audio_source),
            camera: self.camera,
            agent_allow_rules: some_texts(self.agent_allow_rules),
            agent_auto: self.agent_auto,
            agent_workspace: opt_chars(self.agent_workspace),
        }
    }
}

impl Default for Settings {
    /// Nothing is set.
    fn default() -> (r: Self)
        ensures
            r@ == (SettingsText {
                model: None,
                device: None,
                save_dir: None,
                language: None,
                audio_source: None,
                camera: None,
                agent_allow_rules: None,
                agent_auto: None,
                agent_workspace: None,
            }),
    {
        Settings {
            model: None,
            device: None,
            save_dir: None,
            language: None,
            audio_source: None,
            camera: None,
            agent_allow_rules: None,
            agent_auto: None,
            agent_workspace: None,
        }
    }
}

/// Text that is not empty.
pub open spec fn unless_empty_text(text: Option<Seq<char>>) -> Option<Seq<char>> {
    match text {
        Some(t) => if t.len() == 0 {
            None
        } else {
            Some(t)
        },
        None => None,
    }
}

fn unless_empty(text: Option<String>) -> (r: Option<String>)
    ensures
        opt_chars(r) == unless_empty_text(opt_chars(text)),
{
    match text {
        Some(t) => {
            if t.as_str().unicode_len() == 0 {
                None
            } else {
                Some(t)
            }
        },
        None => None,
    }
}

/// The allow-rules in force: those that are kept, or the default rule.
pub open spec fn rules_in_force(kept: Option<Seq<Seq<char>>>) -> Seq<Seq<char>> {
    match kept {
        Some(rules) => rules,
        None => seq![DEFAULT_RULE@],
    }
}

/// The allow-rules in force: those that are kept, or, on first use, the one
/// that lets the agent search the web.
pub fn agent_allow_rules(settings: Settings) -> (r: Vec<String>)
    ensures
        texts(r@) == rules_in_force(settings@.agent_allow_rules),
{
    match settings.agent_allow_rules {
        Some(rules) => rules,
        None => default_rules(),
    }
}

fn default_rules() -> (r: Vec<String>)
    ensures
        texts(r@) == seq![DEFAULT_RULE@],
{
    let mut rules: Vec<String> = Vec::new();
    rules.push(DEFAULT_RULE.to_owned());
    assert(texts(rules@) =~= seq![DEFAULT_RULE@]);
    rules
}

/// The directory that is set for shell commands, if any.
pub fn agent_workspace(settings: Settings) -> (r: Option<String>)
    ensures
        opt_chars(r) == unless_blank_chars(settings@.agent_workspace),
{
    unless_blank(settings.agent_workspace)
}

/// The directory that is set for meetings, if any.
pub fn save_dir(settings: Settings) -> (r: Option<String>)
    ensures
        opt_chars(r) == unless_empty_text(settings@.save_dir),
{
    unless_empty(settings.save_dir)
}

/// The instructions for the agent: what the user has written, or a template.
pub fn read_agent_config(file: Option<String>) -> (r: String)
    ensures
        r@ == match file {
            Some(text) => text@,
            None => DEFAULT_AGENT_CONFIG@,
        },
{
    match file {
        Some(text) => text,
        None => DEFAULT_AGENT_CONFIG.to_owned(),
    }
}

/// The key that is stored, unless it is blank.
pub fn get_api_key(stored: Option<String>) -> (r: Option<String>)
    ensures
        opt_chars(r) == unless_blank_chars(opt_chars(stored)),
{
    unless_blank(stored)
}

/// Whether a key is stored that is not blank.
pub fn has_api_key(stored: Option<String>) -> (r: bool)
    ensures
        r == (unless_blank_chars(opt_chars(stored)) is Some),
{
    get_api_key(stored).is_some()
}

/// What to do with the stored key.
pub enum KeyChange {
    /// Remove it; that there was none is no error.
    Clear,
    /// Store this one.
    Store(String),
}

/// Set the key. A blank one stands for none.
pub fn set_api_key(key: String) -> (r: KeyChange)
    ensures
        r == (if is_blank(key@) {
            KeyChange::Clear
        } else {
            KeyChange::Store(key)
        }),
{
    if blank(key.as_str()) {
        KeyChange::Clear
    } else {
        KeyChange::Store(key)
    }
}

/// A key that was set is there, and is the one that was set; after a blank one
/// there is none.
pub proof fn law_key_is_stored_or_cleared(key: Seq<char>)
    ensures
        ({
            let stored = if is_blank(key) {
                None
            } else {
                Some(key)
            };
            &&& unless_blank_chars(stored) == stored
            &&& unless_blank_chars(stored) is Some <==> !is_blank(key)
        }),
{
}

/// A setting that the user changes.
pub enum Change {
    Model(String),
    /// The input device; empty stands for the default one.
    Device(Option<String>),
    Language(String),
    AudioSource(String),
    Camera(bool),
    /// Where meetings are kept; blank stands for the default place.
    SaveDir(Option<String>),
    AllowRules(Vec<String>),
    Auto(bool),
    /// Where shell commands run; blank stands for the default place.
    Workspace(Option<String>),
}

/// Settings after a change.
pub open spec fn changed(settings: SettingsText, change: Change) -> SettingsText {
    match change {
        Change::Model(model) => SettingsText { model: Some(model@), ..settings },
        Change::Device(device) => SettingsText {
            device: unless_empty_text(opt_chars(device)),
            ..settings
        },
        Change::Language(language) => SettingsText { language: Some(language@), ..settings },
        Change::AudioSource(source) => SettingsText { audio_source: Some(source@), ..settings },
        Change::Camera(on) => SettingsText { camera: Some(on), ..settings },
        Change::SaveDir(dir) => SettingsText {
            save_dir: unless_blank_chars(opt_chars(dir)),
            ..settings
        },
        Change::AllowRules(rules) => SettingsText {
            agent_allow_rules: Some(texts(rules@)),
            ..settings
        },
        Change::Auto(on) => SettingsText { agent_auto: Some(on), ..settings },
        Change::Workspace(dir) => SettingsText {
            agent_workspace: unless_blank_chars(opt_chars(dir)),
            ..settings
        },
    }
}

impl Settings {
    /// Change one setting.
    pub fn update(&mut self, change: Change)
        ensures
            final(self)@ == changed(old(self)@, change),
    {
        match change {
            Change::Model(model) => self.model = Some(model),
            Change::Device(device) => self.device = unless_empty(device),
            Change::Language(language) => self.language = Some(language),
            Change::AudioSource(source) => self.audio_source = Some(source),
            Change::Camera(on) => self.camera = Some(on),
            Change::SaveDir(dir) => self.save_dir = unless_blank(dir),
            Change::AllowRules(rules) => self.agent_allow_rules = Some(rules),
            Change::Auto(on) => self.agent_auto = Some(on),
            Change::Workspace(dir) => self.agent_workspace = unless_blank(dir),
        }
    }
}

/// The settings that a running program works with.
pub struct Preferences {
    pub model: String,
    pub device: Option<String>,
    pub language: String,
    pub audio_source: String,
    pub camera: bool,
    pub agent_rules: Vec<String>,
    pub agent_auto: bool,
}

/// The contents of `Preferences`.
#[verifier::ext_equal]
pub struct PreferencesText {
    pub model: Seq<char>,
    pub device: Option<Seq<char>>,
    pub language: Seq<char>,
    pub audio_source: Seq<char>,
    pub camera: bool,
    pub agent_rules: Seq<Seq<char>>,
    pub agent_auto: bool,
}

impl View for Preferences {
    type V = PreferencesText;

    open spec fn view(&self) -> PreferencesText {
        PreferencesText {
            model: self.model@,
            device: opt_chars(self.device),
            language: self.language@,
            audio_source: self.audio_source@,
            camera: self.camera,
            agent_rules: texts(self.agent_rules@),
            agent_auto: self.agent_auto,
        }
    }
}

/// Text, or what stands for it where there is none.
pub open spec fn text_or(text: Option<Seq<char>>, default: Seq<char>) -> Seq<char> {
    match text {
        Some(t) => t,
        None => default,
    }
}

/// A switch; one that was never set is off.
pub open spec fn is_on(switch: Option<bool>) -> bool {
    switch == Some(true)
}

/// What a program starts with.
pub open spec fn restored(saved: SettingsText) -> PreferencesText {
    PreferencesText {
        model: text_or(saved.model, DEFAULT_MODEL@),
        device: saved.device,
        language: text_or(saved.language, AUTO@),
        audio_source: text_or(saved.audio_source, DEFAULT_AUDIO_SOURCE@),
        camera: is_on(saved.camera),
        agent_rules: rules_in_force(saved.agent_allow_rules),
        agent_auto: is_on(saved.agent_auto),
    }
}

/// What a running program works with after a change.
pub open spec fn adjusted(prefs: PreferencesText, change: Change) -> PreferencesText {
    match change {
        Change::Model(model) => PreferencesText { model: model@, ..prefs },
        Change::Device(device) => PreferencesText {
            device: unless_empty_text(opt_chars(device)),
            ..prefs
        },
        Change::Language(language) => PreferencesText { language: language@, ..prefs },
        Change::AudioSource(source) => PreferencesText { audio_source: source@, ..prefs },
        Change::Camera(on) => PreferencesText { camera: on, ..prefs },
        Change::AllowRules(rules) => PreferencesText { agent_rules: texts(rules@), ..prefs },
        Change::Auto(on) => PreferencesText { agent_auto: on, ..prefs },
        Change::SaveDir(_) | Change::Workspace(_) => prefs,
    }
}

fn or_default(text: Option<String>, default: &str) -> (r: String)
    ensures
        r@ == text_or(opt_chars(text), default@),
{
    match text {
        Some(t) => t,
        None => default.to_owned(),
    }
}

impl Preferences {
    /// What a program starts with.
    pub fn restore(saved: Settings) -> (r: Self)
        ensures
            r@ == restored(saved@),
    {
        let camera: bool = match saved.camera {
            Some(on) => on,
            None => false,
        };
        let agent_auto: bool = match saved.agent_auto {
            Some(on) => on,
            None => false,
        };
        let agent_rules: Vec<String> = match saved.agent_allow_rules {
            Some(rules) => rules,
            None => default_rules(),
        };
        Preferences {
            model: or_default(saved.model, DEFAULT_MODEL),
            device: saved.device,
            language: or_default(saved.language, AUTO),
            audio_source: or_default(saved.audio_source, DEFAULT_AUDIO_SOURCE),
            camera,
            agent_rules,
            agent_auto,
        }
    }

    /// Take over a change.
    pub fn adjust(&mut self, change: Change)
        ensures
            final(self)@ == adjusted(old(self)@, change),
    {
        match change {
            Change::Model(model) => self.model = model,
            Change::Device(device) => self.device = unless_empty(device),
            Change::Language(language) => self.language = language,
            Change::AudioSource(source) => self.audio_source = source,
            Change::Camera(on) => self.camera = on,
            Change::AllowRules(rules) => self.agent_rules = rules,
            Change::Auto(on) => self.agent_auto = on,
            Change::SaveDir(_) | Change::Workspace(_) => {},
        }
    }
}

/// A change outlives the program: started again from the settings that were
/// kept, it works with what it worked with after the change.
pub proof fn law_changes_outlive_the_program(saved: SettingsText, change: Change)
    ensures
        restored(changed(saved, change)) == adjusted(restored(saved), change),
{
}

/// The agent asks before it runs anything unless the user has said otherwise:
/// with nothing set, auto mode is off, and searching the web is the only thing
/// that runs without a question.
pub proof fn law_agent_asks_by_default(saved: SettingsText)
    requires
        saved.agent_auto is None,
        saved.agent_allow_rules is None,
    ensures
        !restored(saved).agent_auto,
        restored(saved).agent_rules == seq!["web_search"@],
{
}

/// What is set is what is read back, as it was given; empty text stands for no
/// device, and blank text for no directory.
pub proof fn law_what_is_set_is_read_back(
    saved: SettingsText,
    text: String,
    rules: Vec<String>,
    on: bool,
)
    ensures
        changed(saved, Change::Model(text)).model == Some(text@),
        changed(saved, Change::Language(text)).language == Some(text@),
        changed(saved, Change::AudioSource(text)).audio_source == Some(text@),
        changed(saved, Change::Camera(on)).camera == Some(on),
        changed(saved, Change::AllowRules(rules)).agent_allow_rules == Some(texts(rules@)),
        changed(saved, Change::Auto(on)).agent_auto == Some(on),
        changed(saved, Change::Device(None)).device is None,
        changed(saved, Change::Device(Some(text))).device == (if text@.len() == 0 {
            None
        } else {
            Some(text@)
        }),
        changed(saved, Change::SaveDir(None)).save_dir is None,
        changed(saved, Change::SaveDir(Some(text))).save_dir == (if trimmed(text@).len() == 0 {
            None
        } else {
            Some(text@)
        }),
        changed(saved, Change::Workspace(None)).agent_workspace is None,
        changed(saved, Change::Workspace(Some(text))).agent_workspace == (if trimmed(text@).len()
            == 0 {
            None
        } else {
            Some(text@)
        }),
{
    lemma_blank_trimmed(text@);
}

/// A change leaves every setting alone but the one that it is about.
pub proof fn law_other_settings_stay(saved: SettingsText, change: Change)
    ensures
        ({
            let after = changed(saved, change);
            &&& !(change is Model) ==> after.model == saved.model
            &&& !(change is Device) ==> after.device == saved.device
            &&& !(change is Language) ==> after.language == saved.language
            &&& !(change is AudioSource) ==> after.audio_source == saved.audio_source
            &&& !(change is Camera) ==> after.camera == saved.camera
            &&& !(change is SaveDir) ==> after.save_dir == saved.save_dir
            &&& !(change is AllowRules) ==> after.agent_allow_rules == saved.agent_allow_rules
            &&& !(change is Auto) ==> after.agent_auto == saved.agent_auto
            &&& !(change is Workspace) ==> after.agent_workspace == saved.agent_workspace
        }),
{
}

/// A program starts with what was kept, and with the defaults where nothing was.
pub proof fn law_what_was_kept_is_restored(saved: SettingsText)
    ensures
        ({
            let prefs = restored(saved);
            &&& prefs.model == (if saved.model is Some {
                saved.model->0
            } else {
                "gemini-3.5-flash"@
            })
            &&& prefs.language == (if saved.language is Some {
                saved.language->0
            } else {
                "auto"@
            })
            &&& prefs.audio_source == (if saved.audio_source is Some {
                saved.audio_source->0
            } else {
                "mic"@
            })
            &&& prefs.device == saved.device
            &&& prefs.camera <==> saved.camera == Some(true)
            &&& prefs.agent_auto <==> saved.agent_auto == Some(true)
            &&& saved.agent_allow_rules is Some ==> prefs.agent_rules == saved.agent_allow_rules->0
        }),
        rules_in_force(saved.agent_allow_rules) == restored(saved).agent_rules,
        rules_in_force(None) == seq!["web_search"@],
{
}

/// Text that is kept unless it is empty is kept as it is.
pub proof fn law_empty_text_stands_for_none(text: Seq<char>)
    ensures
        unless_empty_text(None) is None,
        unless_empty_text(Some(Seq::empty())) is None,
        text.len() > 0 ==> unless_empty_text(Some(text)) == Some(text),
{
}

} // verus!
