//! The configured displays, and their validation from a parsed config file.

use vstd::prelude::*;

verus! {

/// A configured monitor: a connector-name fragment and the layout script to
/// run when it shows up. The script path is resolved against the user's
/// home directory when it is run.
#[derive(Debug)]
pub struct DisplayConfig {
    pub name: String,
    pub layout_script: String,
}

/// A configured monitor as plain text.
pub struct DisplayView {
    pub name: Seq<char>,
    pub layout_script: Seq<char>,
}

impl View for DisplayConfig {
    type V = DisplayView;

    open spec fn view(&self) -> DisplayView {
        DisplayView { name: self.name@, layout_script: self.layout_script@ }
    }
}

impl PartialEq for DisplayConfig {
    fn eq(&self, o: &DisplayConfig) -> (r: bool) {
        self.name == o.name && self.layout_script == o.layout_script
    }
}

impl vstd::std_specs::cmp::PartialEqSpecImpl for DisplayConfig {
    open spec fn obeys_eq_spec() -> bool {
        true
    }

    open spec fn eq_spec(&self, o: &DisplayConfig) -> bool {
        self@ == o@
    }
}

impl DisplayConfig {
    /// A configuration with the given connector fragment and layout script.
    pub fn new(name: String, layout_script: String) -> (r: DisplayConfig)
        ensures
            r.name@ == name@,
            r.layout_script@ == layout_script@,
    {
        DisplayConfig { name, layout_script }
    }

    /// A copy of this configuration.
    pub fn duplicate(&self) -> (r: DisplayConfig)
        ensures
            r@ == self@,
    {
        DisplayConfig { name: self.name.clone(), layout_script: self.layout_script.clone() }
    }
}

/// The views of a list of configured displays, in order.
pub open spec fn displays_view(s: Seq<DisplayConfig>) -> Seq<DisplayView> {
    s.map_values(|d: DisplayConfig| d@)
}

/// One field of a config section as the document gives it.
#[derive(Debug)]
pub enum ConfigField {
    Absent,
    Text(String),
    NotText,
}

/// One display section of the config document.
#[derive(Debug)]
pub struct ConfigSection {
    pub name: ConfigField,
    pub screenlayout: ConfigField,
}

/// Why a config document cannot be honored; `section` counts the display
/// sections from zero, in document order.
#[derive(Debug, PartialEq, Eq, Structural, Clone, Copy)]
pub enum ConfigError {
    MissingName { section: usize },
    NameNotText { section: usize },
    EmptyName { section: usize },
    MissingScreenlayout { section: usize },
    ScreenlayoutNotText { section: usize },
}

/// What a single section yields: its display, or the first fault found in
/// it, the name being checked before the layout script.
pub open spec fn section_result(s: ConfigSection, i: int) -> Result<DisplayView, ConfigError> {
    match s.name {
        ConfigField::Absent => Err(ConfigError::MissingName { section: i as usize }),
        ConfigField::NotText => Err(ConfigError::NameNotText { section: i as usize }),
        ConfigField::Text(n) => if n@.len() == 0 {
            Err(ConfigError::EmptyName { section: i as usize })
        } else {
            match s.screenlayout {
                ConfigField::Absent => Err(ConfigError::MissingScreenlayout { section: i as usize }),
                ConfigField::NotText => Err(ConfigError::ScreenlayoutNotText { section: i as usize }),
                ConfigField::Text(p) => Ok(DisplayView { name: n@, layout_script: p@ }),
            }
        },
    }
}

/// What a whole document yields: every display in document order, or the
/// fault of the first section that has one.
pub open spec fn load_result(s: Seq<ConfigSection>) -> Result<Seq<DisplayView>, ConfigError>
    decreases s.len(),
{
    if s.len() == 0 {
        Ok(Seq::empty())
    } else {
        match load_result(s.drop_last()) {
            Err(e) => Err(e),
            Ok(v) => match section_result(s.last(), s.len() - 1) {
                Err(e) => Err(e),
                Ok(d) => Ok(v.push(d)),
            },
        }
    }
}

proof fn lemma_load_error_persists(s: Seq<ConfigSection>, i: int, e: ConfigError)
    requires
        0 <= i <= s.len(),
        load_result(s.take(i)) == Err::<Seq<DisplayView>, ConfigError>(e),
    ensures
        load_result(s) == Err::<Seq<DisplayView>, ConfigError>(e),
    decreases s.len() - i,
{
    if i == s.len() {
        assert(s.take(i) =~= s);
    } else {
        assert(s.take(i + 1).drop_last() =~= s.take(i));
        lemma_load_error_persists(s, i + 1, e);
    }
}

/// Validates the display sections of a config document, in order.
pub fn load_displays(sections: &Vec<ConfigSection>) -> (r: Result<Vec<DisplayConfig>, ConfigError>)
    ensures
        match r {
            Ok(v) => load_result(sections@) == Ok::<Seq<DisplayView>, ConfigError>(displays_view(v@)),
            Err(e) => load_result(sections@) == Err::<Seq<DisplayView>, ConfigError>(e),
        },
{
    let mut out: Vec<DisplayConfig> = Vec::new();
    let mut i: usize = 0;
    assert(displays_view(out@) =~= Seq::<DisplayView>::empty());
    assert(sections@.take(0) =~= Seq::<ConfigSection>::empty());
    while i < sections.len()
        invariant
            i <= sections@.len(),
            load_result(sections@.take(i as int)) == Ok::<Seq<DisplayView>, ConfigError>(displays_view(out@)),
        decreases sections@.len() - i,
    {
        assert(sections@.take(i + 1).drop_last() =~= sections@.take(i as int));
        assert(sections@.take(i + 1).last() == sections@[i as int]);
        let sec = &sections[i];
        let step: Result<DisplayConfig, ConfigError> = match &sec.name {
            ConfigField::Absent => Err(ConfigError::MissingName { section: i }),
            ConfigField::NotText => Err(ConfigError::NameNotText { section: i }),
            ConfigField::Text(n) => if n.as_str().unicode_len() == 0 {
                Err(ConfigError::EmptyName { section: i })
            } else {
                match &sec.screenlayout {
                    ConfigField::Absent => Err(ConfigError::MissingScreenlayout { section: i }),
                    ConfigField::NotText => Err(ConfigError::ScreenlayoutNotText { section: i }),
                    ConfigField::Text(p) => Ok(DisplayConfig { name: n.clone(), layout_script: p.clone() }),
                }
            },
        };
        match step {
            Err(e) => {
                proof {
                    lemma_load_error_persists(sections@, i + 1, e);
                }
                return Err(e);
            },
            Ok(d) => {
                let ghost prev = out@;
                out.push(d);
                assert(displays_view(out@) =~= displays_view(prev).push(out@.last()@));
            },
        }
        i = i + 1;
    }
    assert(sections@.take(sections@.len() as int) =~= sections@);
    Ok(out)
}

} // verus!
