use stoat_client::color::embed_border_colour;
use stoat_client::color::{
    linear_gradient_parser, parse_fill, percent_to_channel, place_stops, Angle, AngleUnit, Fill,
    GradientStop, StopOffset, BLUE, GREEN, RED,
};

fn color_of(input: &str) -> Option<u32> {
    match parse_fill(input) {
        Some(Fill::Color(c)) => Some(c),
        _ => None,
    }
}

fn gradient_of(input: &str) -> Option<stoat_client::color::LinearGradient> {
    match parse_fill(input) {
        Some(Fill::LinearGradient(g)) => Some(g),
        _ => None,
    }
}

#[test]
fn named_colors_ignore_case() {
    assert_eq!(color_of("red"), Some(RED));
    assert_eq!(color_of("RED"), Some(RED));
    assert_eq!(color_of("Green"), Some(GREEN));
    assert_eq!(color_of("bLuE"), Some(BLUE));
    assert_eq!(color_of("purple"), None);
    assert_eq!(color_of("redd"), None);
}

#[test]
fn named_color_values() {
    assert_eq!(RED, 0xFFFF0000);
    assert_eq!(GREEN, 0xFF00FF00);
    assert_eq!(BLUE, 0xFF0000FF);
}

#[test]
fn hex_six_and_eight_digits() {
    assert_eq!(color_of("#ff0000"), Some(0xFFFF0000));
    assert_eq!(color_of("#12AbEf"), Some(0xFF12ABEF));
    assert_eq!(color_of("#ff000080"), Some(0x80FF0000));
}

#[test]
fn hex_short_forms_keep_single_digits() {
    assert_eq!(color_of("#fff"), Some(0xFF0F0F0F));
    assert_eq!(color_of("#f008"), Some(0x080F0000));
}

#[test]
fn hex_other_lengths_fail() {
    assert_eq!(color_of("#12345"), None);
    assert_eq!(color_of("#1234567"), None);
    assert_eq!(color_of("#"), None);
    assert_eq!(color_of("#ggg"), None);
}

#[test]
fn rgb_with_commas() {
    assert_eq!(color_of("rgb(255, 0, 0)"), Some(0xFFFF0000));
    assert_eq!(color_of("rgb(1,2,3)"), Some(0xFF010203));
    assert_eq!(color_of("rgba( 1 , 2 , 3 , 4 )"), Some(0x04010203));
    assert_eq!(color_of("rgba(255, 0, 0, 50%)"), Some(0x7FFF0000));
}

#[test]
fn rgb_with_spaces_and_slash() {
    assert_eq!(color_of("rgb(10 20 30)"), Some(0xFF0A141E));
    assert_eq!(color_of("rgb(10 20 30 / 40%)"), Some(0x660A141E));
    assert_eq!(color_of("rgb(10%20%30%)"), Some(0xFF19334C));
}

#[test]
fn rgb_percentages() {
    assert_eq!(color_of("rgb(100%, 0%, 50%)"), Some(0xFFFF007F));
    assert_eq!(color_of("rgb(200%, 0, 0)"), Some(0xFFFF0000));
}

#[test]
fn rgb_rejects_out_of_range_and_leading_zeros() {
    assert_eq!(color_of("rgb(256, 0, 0)"), None);
    assert_eq!(color_of("rgb(01, 0, 0)"), None);
    assert_eq!(color_of("rgb(1, 2)"), None);
    assert_eq!(color_of("rgb(1, 2, 3, 4, 5)"), None);
    assert_eq!(color_of("rgbx(1, 2, 3)"), None);
}

#[test]
fn fill_must_span_whole_input() {
    assert_eq!(color_of("red "), None);
    assert_eq!(color_of(" red"), None);
    assert!(parse_fill("").is_none());
}

#[test]
fn percent_channel_matches_float_formula() {
    for f in 0..=255u8 {
        let expected = (255. * (f as f32 / 100.)) as u8;
        assert_eq!(percent_to_channel(f), expected, "percentage {f}");
    }
}

#[test]
fn gradient_with_direction() {
    let g = gradient_of("linear-gradient(to left, red, blue)").unwrap();
    assert!(matches!(g.angle, Some(Angle::Direction(90))));
    assert_eq!(
        g.stops,
        vec![
            GradientStop { color: RED, percent: None },
            GradientStop { color: BLUE, percent: None }
        ]
    );
}

#[test]
fn gradient_directions() {
    let angle = |s: &str| match gradient_of(s).unwrap().angle {
        Some(Angle::Direction(d)) => d,
        _ => panic!("no direction in {s}"),
    };
    assert_eq!(angle("linear-gradient(to right, red)"), 270);
    assert_eq!(angle("linear-gradient(to top left, red)"), 135);
    assert_eq!(angle("linear-gradient(to top right, red)"), 225);
    assert_eq!(angle("linear-gradient(to bottom left, red)"), 45);
    assert_eq!(angle("linear-gradient(to bottom right, red)"), 315);
    assert_eq!(angle("linear-gradient( toleft , red)"), 90);
}

#[test]
fn gradient_vertical_alone_is_no_direction() {
    assert!(gradient_of("linear-gradient(to bottom, red)").is_none());
}

#[test]
fn gradient_with_measured_angle_and_stops() {
    let g = gradient_of("linear-gradient(45deg, #ff0000 0%, #0000ff 100%)").unwrap();
    match g.angle {
        Some(Angle::Measure { number, unit }) => {
            assert_eq!(number, "45");
            assert_eq!(unit, AngleUnit::Deg);
        }
        other => panic!("unexpected angle {other:?}"),
    }
    assert_eq!(
        g.stops,
        vec![
            GradientStop { color: 0xFFFF0000, percent: Some(0) },
            GradientStop { color: 0xFF0000FF, percent: Some(100) }
        ]
    );
}

#[test]
fn gradient_measured_units() {
    let unit = |s: &str| match gradient_of(s).unwrap().angle {
        Some(Angle::Measure { number, unit }) => (number, unit),
        other => panic!("unexpected {other:?}"),
    };
    assert_eq!(unit("linear-gradient(-1.5turn, red)"), ("-1.5".to_string(), AngleUnit::Turn));
    assert_eq!(unit("linear-gradient(0 rad, red)"), ("0".to_string(), AngleUnit::Rad));
    assert_eq!(unit("linear-gradient(100grad , red)"), ("100".to_string(), AngleUnit::Grad));
    assert!(gradient_of("linear-gradient(1.deg, red)").is_none());
}

#[test]
fn gradient_stop_lists() {
    assert_eq!(gradient_of("linear-gradient()").unwrap().stops, vec![]);
    assert_eq!(gradient_of("linear-gradient(red, blue,)").unwrap().stops.len(), 2);
    let g = gradient_of("linear-gradient(red 10%20%, blue)").unwrap();
    assert_eq!(g.stops[0], GradientStop { color: RED, percent: Some(10) });
    assert!(g.angle.is_none());
    assert!(gradient_of("linear-gradient(red 10% 20%, blue)").is_none());
    assert!(gradient_of("linear-gradient(red,, blue)").is_none());
}

#[test]
fn gradient_parser_reports_end_position() {
    let chars: Vec<char> = "xlinear-gradient(red)tail".chars().collect();
    let (g, end) = linear_gradient_parser(&chars, 1).unwrap();
    assert_eq!(end, 21);
    assert_eq!(g.stops.len(), 1);
    assert!(linear_gradient_parser(&chars, 0).is_none());
}

#[test]
fn stops_placed_explicitly_or_evenly() {
    let explicit = vec![
        GradientStop { color: RED, percent: Some(5) },
        GradientStop { color: BLUE, percent: Some(90) },
    ];
    let placed = place_stops(&explicit);
    assert_eq!(placed[0].offset, StopOffset::Percent(5));
    assert_eq!(placed[1].offset, StopOffset::Percent(90));

    let mixed = vec![
        GradientStop { color: RED, percent: Some(5) },
        GradientStop { color: GREEN, percent: None },
        GradientStop { color: BLUE, percent: Some(90) },
    ];
    let placed = place_stops(&mixed);
    assert_eq!(placed[0].offset, StopOffset::Even { index: 0, last: 2 });
    assert_eq!(placed[2].offset, StopOffset::Even { index: 2, last: 2 });
    assert_eq!(placed[1].color, GREEN);
    assert!(place_stops(&vec![]).is_empty());
}

#[test]
fn embed_borders() {
    assert_eq!(embed_border_colour(&Some("#ff0000".to_string()), 7), 0xFFFF0000);
    assert_eq!(embed_border_colour(&Some("linear-gradient(to left, red, blue)".to_string()), 7), 7);
    assert_eq!(embed_border_colour(&Some("nonsense".to_string()), 7), 7);
    assert_eq!(embed_border_colour(&None, 7), 7);
}
