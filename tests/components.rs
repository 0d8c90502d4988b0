use splits_parser::pace_component::{Accuracy, Component, Value};

#[test]
fn component_names_follow_the_comparison() {
    assert_eq!(Component::new().name(), "Current Pace");
    assert_eq!(Component::text(Some("Best Segments")), "Best Possible Time");
    assert_eq!(Component::text(Some("Worst Segments")), "Worst Possible Time");
    assert_eq!(Component::text(Some("Average Segments")), "Predicted Time");
    assert_eq!(Component::text(Some("Personal Best")), "Current Pace");
    assert_eq!(Component::text(Some("Goal")), "Current Pace (Goal)");
}

#[test]
fn set_value_changes_one_setting() {
    let mut c = Component::new();
    c.set_value(1, Value::OptionalString(Some("Goal".to_string())));
    c.set_value(5, Value::Accuracy(Accuracy::Hundredths));
    c.set_value(6, Value::Bool(true));
    assert_eq!(c.settings().comparison_override, Some("Goal".to_string()));
    assert_eq!(c.settings().accuracy, Accuracy::Hundredths);
    assert!(c.settings().wall_clock);
    assert!(!c.settings().display_two_rows);
    assert_eq!(c.name(), "Current Pace (Goal)");
    c.settings_mut().display_two_rows = true;
    assert!(c.settings().display_two_rows);
    let d = c.settings_description();
    assert_eq!(d.fields.len(), 7);
    let names: Vec<&str> = d.fields.iter().map(|f| f.text.as_str()).collect();
    assert_eq!(
        names,
        vec!["Background", "Comparison", "Display 2 Rows", "Label Color", "Value Color", "Accuracy", "Display relative wall clock"]
    );
    assert!(matches!(&d.fields[1].value, Value::OptionalString(Some(c)) if c == "Goal"));
    assert!(matches!(d.fields[6].value, Value::Bool(true)));
    let _ = splits_parser::previous_segment::Component::new();
}
