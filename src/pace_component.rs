//! The current pace component: it shows the final time the current attempt
//! is heading for, if it keeps to the chosen comparison for the rest of the
//! run. Here are its settings, its title and its settings description.

use vstd::prelude::*;
use vstd::string::StringExecFns;
use crate::text::{chars_are, chars_of};

verus! {

/// A color as red, green, blue and alpha.
#[derive(Debug, Clone, Copy, PartialEq, Eq, Structural)]
pub struct Color {
    pub red: u8,
    pub green: u8,
    pub blue: u8,
    pub alpha: u8,
}

/// A background.
#[derive(Debug, Clone, Copy, PartialEq, Eq, Structural)]
pub enum Gradient {
    Transparent,
    Plain(Color),
    Vertical(Color, Color),
    Horizontal(Color, Color),
}

/// How precisely a time is shown.
#[derive(Debug, Clone, Copy, PartialEq, Eq, Structural)]
pub enum Accuracy {
    Seconds,
    Tenths,
    Hundredths,
    Milliseconds,
}

/// The background of key-value components: white, fading from faint to
/// fainter.
pub open spec fn default_gradient_spec() -> Gradient {
    Gradient::Vertical(
        Color { red: 255, green: 255, blue: 255, alpha: 15 },
        Color { red: 255, green: 255, blue: 255, alpha: 1 },
    )
}

pub fn default_gradient() -> (r: Gradient)
    ensures
        r == default_gradient_spec(),
{
    Gradient::Vertical(
        Color { red: 255, green: 255, blue: 255, alpha: 15 },
        Color { red: 255, green: 255, blue: 255, alpha: 1 },
    )
}

/// The value of one setting.
#[derive(Debug, Clone)]
pub enum Value {
    Gradient(Gradient),
    OptionalString(Option<String>),
    Bool(bool),
    OptionalColor(Option<Color>),
    Accuracy(Accuracy),
}

/// One setting: its name, what it does, and its value.
#[derive(Debug, Clone)]
pub struct Field {
    pub text: String,
    pub tooltip: String,
    pub value: Value,
}

/// The settings of a component, in order.
#[derive(Debug, Clone)]
pub struct SettingsDescription {
    pub fields: Vec<Field>,
}

/// The settings of the current pace component.
#[derive(Debug, Clone)]
pub struct Settings {
    /// The background shown behind the component.
    pub background: Gradient,
    /// The comparison to predict from; the timer's current comparison where
    /// there is none.
    pub comparison_override: Option<String>,
    /// Whether the name and the value are shown in two rows.
    pub display_two_rows: bool,
    /// The color of the name; the layout's where there is none.
    pub label_color: Option<Color>,
    /// The color of the value; the layout's where there is none.
    pub value_color: Option<Color>,
    /// How precisely the time is shown.
    pub accuracy: Accuracy,
    /// Whether the predicted wall-clock time is shown instead.
    pub wall_clock: bool,
}

impl Settings {
    pub open spec fn is_default(&self) -> bool {
        &&& self.background == default_gradient_spec()
        &&& self.comparison_override is None
        &&& !self.display_two_rows
        &&& self.label_color is None
        &&& self.value_color is None
        &&& self.accuracy == Accuracy::Seconds
        &&& !self.wall_clock
    }
}

impl Default for Settings {
    fn default() -> (r: Settings)
        ensures
            r.is_default(),
    {
        Settings {
            background: default_gradient(),
            comparison_override: None,
            display_two_rows: false,
            label_color: None,
            value_color: None,
            accuracy: Accuracy::Seconds,
            wall_clock: false,
        }
    }
}

/// The current pace component.
#[derive(Debug, Clone)]
pub struct Component {
    settings: Settings,
}

/// The title of the component for a comparison: the four standard
/// comparisons have names of their own, any other is named in brackets.
pub open spec fn title_of(c: Option<Seq<char>>) -> Seq<char> {
    match c {
        None => "Current Pace"@,
        Some(c) => if c == "Personal Best"@ {
            "Current Pace"@
        } else if c == "Best Segments"@ {
            "Best Possible Time"@
        } else if c == "Worst Segments"@ {
            "Worst Possible Time"@
        } else if c == "Average Segments"@ {
            "Predicted Time"@
        } else {
            "Current Pace ("@ + c + ")"@
        },
    }
}

/// Whether `v` is a value that setting `index` can take.
pub open spec fn fits_setting(index: int, v: Value) -> bool {
    match v {
        Value::Gradient(_) => index == 0,
        Value::OptionalString(_) => index == 1,
        Value::Bool(_) => index == 2 || index == 6,
        Value::OptionalColor(_) => index == 3 || index == 4,
        Value::Accuracy(_) => index == 5,
    }
}

/// `s` with setting `index` set to `v`.
pub open spec fn with_setting(s: Settings, index: int, v: Value) -> Settings {
    match v {
        Value::Gradient(g) => Settings { background: g, ..s },
        Value::OptionalString(c) => Settings { comparison_override: c, ..s },
        Value::Bool(b) => if index == 2 {
            Settings { display_two_rows: b, ..s }
        } else {
            Settings { wall_clock: b, ..s }
        },
        Value::OptionalColor(c) => if index == 3 {
            Settings { label_color: c, ..s }
        } else {
            Settings { value_color: c, ..s }
        },
        Value::Accuracy(a) => Settings { accuracy: a, ..s },
    }
}

/// The value of setting `i` of `s`, as the settings description gives it.
pub open spec fn described_value(s: Settings, i: int) -> Value {
    if i == 0 {
        Value::Gradient(s.background)
    } else if i == 1 {
        Value::OptionalString(s.comparison_override)
    } else if i == 2 {
        Value::Bool(s.display_two_rows)
    } else if i == 3 {
        Value::OptionalColor(s.label_color)
    } else if i == 4 {
        Value::OptionalColor(s.value_color)
    } else if i == 5 {
        Value::Accuracy(s.accuracy)
    } else {
        Value::Bool(s.wall_clock)
    }
}

/// The name of setting `i`.
pub open spec fn field_name(i: int) -> Seq<char> {
    if i == 0 {
        "Background"@
    } else if i == 1 {
        "Comparison"@
    } else if i == 2 {
        "Display 2 Rows"@
    } else if i == 3 {
        "Label Color"@
    } else if i == 4 {
        "Value Color"@
    } else if i == 5 {
        "Accuracy"@
    } else {
        "Display relative wall clock"@
    }
}

/// Each described value fits its setting, and setting it back leaves the
/// settings as they were.
pub proof fn law_set_described_value_keeps_settings(s: Settings, i: int)
    requires
        0 <= i < 7,
    ensures
        fits_setting(i, described_value(s, i)),
        with_setting(s, i, described_value(s, i)) == s,
{
}

impl Component {
    pub closed spec fn settings_view(&self) -> Settings {
        self.settings
    }

    /// Creates a component with the default settings.
    pub fn new() -> (r: Component)
        ensures
            r.settings_view().is_default(),
    {
        Component { settings: Settings::default() }
    }

    /// Creates a component with the given settings.
    pub fn with_settings(settings: Settings) -> (r: Component)
        ensures
            r.settings_view() == settings,
    {
        Component { settings }
    }

    /// The component's settings.
    pub fn settings(&self) -> (r: &Settings)
        ensures
            *r == self.settings_view(),
    {
        &self.settings
    }

    /// The component's settings, to change.
    pub fn settings_mut(&mut self) -> (r: &mut Settings)
        ensures
            *r == old(self).settings_view(),
            final(self).settings_view() == *final(r),
    {
        &mut self.settings
    }

    /// The component's title for the comparison it is set to.
    pub fn name(&self) -> (r: String)
        ensures
            r@ == title_of(
                match self.settings_view().comparison_override {
                    Some(s) => Some(s@),
                    None => None,
                },
            ),
    {
        match &self.settings.comparison_override {
            Some(c) => Self::text(Some(c.as_str())),
            None => Self::text(None),
        }
    }

    /// The title for comparison `comparison`.
    pub fn text(comparison: Option<&str>) -> (r: String)
        ensures
            r@ == title_of(
                match comparison {
                    Some(s) => Some(s@),
                    None => None,
                },
            ),
    {
        match comparison {
            None => String::from_str("Current Pace"),
            Some(c) => {
                let cs = chars_of(c);
                let n = cs.len();
                assert(cs@.subrange(0, n as int) =~= cs@);
                if chars_are(&cs, 0, n, "Personal Best") {
                    String::from_str("Current Pace")
                } else if chars_are(&cs, 0, n, "Best Segments") {
                    String::from_str("Best Possible Time")
                } else if chars_are(&cs, 0, n, "Worst Segments") {
                    String::from_str("Worst Possible Time")
                } else if chars_are(&cs, 0, n, "Average Segments") {
                    String::from_str("Predicted Time")
                } else {
                    let mut s = String::from_str("Current Pace (");
                    s.append(c);
                    s.append(")");
                    s
                }
            },
        }
    }

    /// Sets setting `index`, counted as the settings description lists them,
    /// to `value`.
    pub fn set_value(&mut self, index: usize, value: Value)
        requires
            index < 7,
            fits_setting(index as int, value),
        ensures
            final(self).settings_view() == with_setting(old(self).settings_view(), index as int, value),
    {
        match value {
            Value::Gradient(g) => self.settings.background = g,
            Value::OptionalString(c) => self.settings.comparison_override = c,
            Value::Bool(b) => if index == 2 {
                self.settings.display_two_rows = b;
            } else {
                self.settings.wall_clock = b;
            },
            Value::OptionalColor(c) => if index == 3 {
                self.settings.label_color = c;
            } else {
                self.settings.value_color = c;
            },
            Value::Accuracy(a) => self.settings.accuracy = a,
        }
    }

    /// The settings of the component and their values, in the order that
    /// `set_value` counts them.
    pub fn settings_description(&self) -> (r: SettingsDescription)
        ensures
            r.fields@.len() == 7,
            forall|i: int|
                0 <= i < 7 ==> (#[trigger] r.fields@[i]).value == described_value(
                    self.settings_view(),
                    i,
                ) && r.fields@[i].text@ == field_name(i),
    {
        let s = &self.settings;
        let mut fields: Vec<Field> = Vec::new();
        fields.push(Field {
            text: String::from_str("Background"),
            tooltip: String::from_str("The background shown behind the component."),
            value: Value::Gradient(s.background),
        });
        fields.push(Field {
            text: String::from_str("Comparison"),
            tooltip: String::from_str(
                "The comparison to predict the final time from. If not specified, the current comparison is used.",
            ),
            value: Value::OptionalString(
                match &s.comparison_override {
                    Some(c) => Some(c.clone()),
                    None => None,
                },
            ),
        });
        fields.push(Field {
            text: String::from_str("Display 2 Rows"),
            tooltip: String::from_str(
                "Specifies whether to display the name of the component and the predicted time in two separate rows.",
            ),
            value: Value::Bool(s.display_two_rows),
        });
        fields.push(Field {
            text: String::from_str("Label Color"),
            tooltip: String::from_str(
                "The color of the component's name. If not specified, the color is taken from the layout.",
            ),
            value: Value::OptionalColor(s.label_color),
        });
        fields.push(Field {
            text: String::from_str("Value Color"),
            tooltip: String::from_str(
                "The color of the predicted time. If not specified, the color is taken from the layout.",
            ),
            value: Value::OptionalColor(s.value_color),
        });
        fields.push(Field {
            text: String::from_str("Accuracy"),
            tooltip: String::from_str("The accuracy of the predicted time shown."),
            value: Value::Accuracy(s.accuracy),
        });
        fields.push(Field {
            text: String::from_str("Display relative wall clock"),
            tooltip: String::from_str("Display the predicted wall clock time"),
            value: Value::Bool(s.wall_clock),
        });
        proof {
            assert forall|i: int| 0 <= i < 7 implies (#[trigger] fields@[i]).value == described_value(
                self.settings_view(),
                i,
            ) && fields@[i].text@ == field_name(i) by {
                reveal_strlit("Background");
                reveal_strlit("Comparison");
                reveal_strlit("Display 2 Rows");
                reveal_strlit("Label Color");
                reveal_strlit("Value Color");
                reveal_strlit("Accuracy");
                reveal_strlit("Display relative wall clock");
            }
        }
        SettingsDescription { fields }
    }
}

impl Default for Component {
    fn default() -> (r: Component)
        ensures
            r.settings_view().is_default(),
    {
        Component::new()
    }
}

} // verus!
