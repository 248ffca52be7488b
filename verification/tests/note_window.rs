use stickyboard::ipc::IpcRequest;
use stickyboard::note::{
    after_placement, delete_request, next_mapping_try, note_app_id, note_css_class, parse_note_id,
    track_geometry, update_request, MappingAction, NoteGeometry, PlacementOutcome,
};

fn args(v: &[&str]) -> Vec<String> {
    v.iter().map(|s| s.to_string()).collect()
}

#[test]
fn note_id_from_command_line() {
    assert_eq!(parse_note_id(&args(&["prog", "--id", "12"])), Some(12));
    assert_eq!(parse_note_id(&args(&["prog", "--id"])), None);
    assert_eq!(parse_note_id(&args(&["prog"])), None);
    assert_eq!(parse_note_id(&args(&[])), None);
    assert_eq!(parse_note_id(&args(&["prog", "--id", "x"])), None);
    assert_eq!(parse_note_id(&args(&["prog", "--id", "3", "--id", "4"])), Some(4));
    assert_eq!(parse_note_id(&args(&["prog", "--id", "3", "--id", "z"])), Some(3));
    assert_eq!(parse_note_id(&args(&["--id", "--id", "5"])), Some(5));
    assert_eq!(parse_note_id(&args(&["prog", "-id", "5"])), None);
}

#[test]
fn names_of_the_window() {
    assert_eq!(note_app_id(9), "com.stickyboard.note9");
    assert_eq!(note_css_class("pink"), "note-pink");
}

#[test]
fn geometry_tracking() {
    let mut g = NoteGeometry { pos_x: 100, pos_y: 100, width: 300, height: 250 };
    assert!(!track_geometry(&mut g, [100, 100], [300, 250]));
    assert!(track_geometry(&mut g, [120, 90], [300, 250]));
    assert_eq!(g, NoteGeometry { pos_x: 120, pos_y: 90, width: 300, height: 250 });
    assert!(!track_geometry(&mut g, [120, 90], [300, 250]));
    assert!(track_geometry(&mut g, [120, 90], [310, 250]));
    assert_eq!(g.width, 310);
}

#[test]
fn requests_of_the_window() {
    let g = NoteGeometry { pos_x: 1, pos_y: 2, width: 3, height: 4 };
    match update_request(5, "hello", "green", g) {
        IpcRequest::UpdateNote { id, text, color, pos_x, pos_y, width, height } => {
            assert_eq!((id, text.as_str(), color.as_str(), pos_x, pos_y, width, height), (5, "hello", "green", 1, 2, 3, 4));
        }
        _ => panic!(),
    }
    assert!(matches!(delete_request(8), IpcRequest::DeleteNote { id: 8, from_window: true }));
}

#[test]
fn placing_a_new_window() {
    assert_eq!(next_mapping_try(0), Some(1));
    assert_eq!(next_mapping_try(19), Some(20));
    assert_eq!(next_mapping_try(20), None);
    assert_eq!(after_placement(PlacementOutcome::Placed), MappingAction::StartTracking);
    assert_eq!(after_placement(PlacementOutcome::NotFound), MappingAction::Retry);
    assert_eq!(after_placement(PlacementOutcome::Failed), MappingAction::Stop);
}
