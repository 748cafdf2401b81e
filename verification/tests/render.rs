use vexide_panic::render::{
    DisplayGeometry, DrawCommand, ErrorBoxRenderer, Point, Rect, ALERT_COLOR, CONTRAST_COLOR,
    ERROR_BOX_MARGIN, ERROR_BOX_PADDING, LINE_MAX_WIDTH,
};
use vexide_panic::wrap::wrap_lines;

fn brain() -> DisplayGeometry {
    DisplayGeometry::for_screen(480, 240, 20)
}

fn all_commands(geometry: DisplayGeometry, message: &str) -> Vec<DrawCommand> {
    let mut renderer = ErrorBoxRenderer::new(geometry, message);
    let mut commands = Vec::new();
    while let Some(command) = renderer.next_command() {
        commands.push(command);
    }
    assert!(renderer.is_done());
    commands
}

#[test]
fn geometry_of_a_screen_has_the_fixed_measures() {
    assert_eq!(ERROR_BOX_MARGIN, 16);
    assert_eq!(ERROR_BOX_PADDING, 16);
    assert_eq!(LINE_MAX_WIDTH, 52);
    assert_eq!(ALERT_COLOR, 0xFF0000);
    assert_eq!(CONTRAST_COLOR, 0xFFFFFF);
    assert_eq!(
        brain(),
        DisplayGeometry {
            margin: 16,
            padding: 16,
            max_line_chars: 52,
            line_height: 20,
            screen_width: 480,
            screen_height: 240,
        }
    );
}

#[test]
fn error_box_is_the_screen_less_the_margin() {
    assert_eq!(
        brain().error_box(),
        Rect { start: Point { x: 16, y: 16 }, end: Point { x: 464, y: 224 } }
    );
    let geometry = DisplayGeometry {
        margin: 5,
        padding: 1,
        max_line_chars: 10,
        line_height: 8,
        screen_width: 100,
        screen_height: 60,
    };
    assert_eq!(
        geometry.error_box(),
        Rect { start: Point { x: 5, y: 5 }, end: Point { x: 95, y: 55 } }
    );
}

#[test]
fn lines_start_one_line_height_apart() {
    let geometry = brain();
    assert_eq!(geometry.text_origin(0), Point { x: 32, y: 32 });
    assert_eq!(geometry.text_origin(1), Point { x: 32, y: 52 });
    assert_eq!(geometry.text_origin(2), Point { x: 32, y: 72 });
    assert_eq!(geometry.text_origin(9), Point { x: 32, y: 212 });
}

#[test]
fn coordinates_stop_at_the_ends_of_their_range() {
    let geometry = brain();
    assert_eq!(geometry.text_origin(1636), Point { x: 32, y: 32752 });
    assert_eq!(geometry.text_origin(1637), Point { x: 32, y: i16::MAX });
    assert_eq!(geometry.text_origin(usize::MAX), Point { x: 32, y: i16::MAX });
    let upwards = DisplayGeometry { line_height: -20, ..geometry };
    assert_eq!(upwards.text_origin(usize::MAX), Point { x: 32, y: i16::MIN });
    let wide = DisplayGeometry {
        margin: -1,
        padding: -32767,
        max_line_chars: 52,
        line_height: 0,
        screen_width: i16::MAX,
        screen_height: i16::MIN,
    };
    assert_eq!(
        wide.error_box(),
        Rect { start: Point { x: -1, y: -1 }, end: Point { x: i16::MAX, y: -32767 } }
    );
    assert_eq!(wide.text_origin(7), Point { x: i16::MIN, y: i16::MIN });
}

#[test]
fn box_is_filled_then_bordered_then_written() {
    let geometry = brain();
    let rect = Rect { start: Point { x: 16, y: 16 }, end: Point { x: 464, y: 224 } };
    assert_eq!(
        all_commands(geometry, "task 'main' index out of bounds"),
        vec![
            DrawCommand::Fill { rect, color: 0xFF0000 },
            DrawCommand::Stroke { rect, color: 0xFFFFFF },
            DrawCommand::SmallText {
                text: "task 'main' index out of bounds".to_string(),
                origin: Point { x: 32, y: 32 },
                color: 0xFFFFFF,
            },
        ]
    );
}

#[test]
fn every_line_is_written_below_the_one_before() {
    let geometry = brain();
    let message = format!("{}\nsecond", "x".repeat(80));
    let commands = all_commands(geometry, &message);
    let lines = wrap_lines(&message, 52);
    assert_eq!(lines.len(), 3);
    assert_eq!(commands.len(), 2 + lines.len());
    for (index, line) in lines.iter().enumerate() {
        assert_eq!(
            commands[2 + index],
            DrawCommand::SmallText {
                text: line.clone(),
                origin: Point { x: 32, y: 32 + 20 * index as i16 },
                color: 0xFFFFFF,
            }
        );
    }
}

#[test]
fn renderer_is_done_after_the_last_line() {
    let mut renderer = ErrorBoxRenderer::new(brain(), "");
    assert!(!renderer.is_done());
    assert!(matches!(renderer.next_command(), Some(DrawCommand::Fill { .. })));
    assert!(!renderer.is_done());
    assert!(matches!(renderer.next_command(), Some(DrawCommand::Stroke { .. })));
    assert!(!renderer.is_done());
    assert_eq!(
        renderer.next_command(),
        Some(DrawCommand::SmallText {
            text: String::new(),
            origin: Point { x: 32, y: 32 },
            color: 0xFFFFFF
        })
    );
    assert!(renderer.is_done());
    assert_eq!(renderer.next_command(), None);
    assert!(renderer.is_done());
}
