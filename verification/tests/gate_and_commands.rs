use rustflix::commands::{
    handle_user_command, handle_video_command, handle_view_command, EntityType, RustflixArgs,
    UserCommand, UserCommandOutcome, UserSubcommand, VideoCommand, VideoCommandOutcome,
    VideoSubcommand, ViewCommand, ViewCommandOutcome, ViewSubcommand,
};
use rustflix::confirm::{classify_response, ConfirmDecision};
use rustflix::users::{CreateUser, User};
use rustflix::videos::{UpdateVideo, Video, VideoQuery};
use rustflix::views::AddViews;

#[test]
fn affirmative_forms_are_accepted() {
    assert!(matches!(classify_response(b"y", None), ConfirmDecision::Affirmed));
    assert!(matches!(classify_response(b"Y", None), ConfirmDecision::Affirmed));
    assert!(matches!(classify_response(b"yes", None), ConfirmDecision::Affirmed));
    assert!(matches!(classify_response(b"  YeS \n", None), ConfirmDecision::Affirmed));
}

#[test]
fn negative_forms_are_accepted() {
    assert!(matches!(classify_response(b"n", None), ConfirmDecision::Declined));
    assert!(matches!(classify_response(b"NO", None), ConfirmDecision::Declined));
    assert!(matches!(classify_response(b"\tno\r\n", None), ConfirmDecision::Declined));
}

#[test]
fn empty_input_resolves_to_default() {
    assert!(matches!(classify_response(b"", Some(true)), ConfirmDecision::Affirmed));
    assert!(matches!(classify_response(b"\n", Some(false)), ConfirmDecision::Declined));
    assert!(matches!(classify_response(b"   ", None), ConfirmDecision::Unresolved));
}

#[test]
fn other_input_is_invalid() {
    assert!(matches!(classify_response(b"maybe", Some(true)), ConfirmDecision::Unresolved));
    assert!(matches!(classify_response(b"ye", Some(true)), ConfirmDecision::Unresolved));
    assert!(matches!(classify_response(b"yess", None), ConfirmDecision::Unresolved));
    assert!(matches!(classify_response(b"y e", None), ConfirmDecision::Unresolved));
}

#[test]
fn user_command_dispatches_create() {
    let mut users: Vec<User> = Vec::new();
    let command = UserCommand {
        subcommand: UserSubcommand::Create(CreateUser {
            name: "ann".to_string(),
            email: "a@b".to_string(),
        }),
    };
    match handle_user_command(&mut users, command, true) {
        UserCommandOutcome::Created(Ok(u)) => {
            assert_eq!(u.name, "ann".to_string());
            assert_eq!(users.len(), 1);
        },
        _ => panic!("expected a created outcome"),
    }
}

#[test]
fn video_command_dispatches_update_with_gate() {
    let mut videos = vec![Video { id: 5, name: "clip".to_string(), views: 1 }];
    let command = VideoCommand {
        subcommand: VideoSubcommand::Update(UpdateVideo {
            query_id: Some(5),
            query_name: None,
            new_name: None,
            new_views: Some(9),
        }),
    };
    match handle_video_command(&mut videos, command, false) {
        VideoCommandOutcome::Updated(Err(_)) => {},
        _ => panic!("expected the declined gate to cancel the update"),
    }
    assert_eq!(videos[0].views, 1);
}

#[test]
fn view_command_adds_and_shows() {
    let mut videos = vec![Video { id: 5, name: "clip".to_string(), views: u32::MAX }];
    let add = ViewCommand {
        subcommand: ViewSubcommand::Add(AddViews {
            name: Some("clip".to_string()),
            id: None,
            number_to_add: 2,
        }),
    };
    match handle_view_command(&mut videos, add) {
        ViewCommandOutcome::Added(Ok(v)) => {
            // The 32-bit counter wraps around on overflow.
            assert_eq!(v.views, 1);
        },
        _ => panic!("expected an added outcome"),
    }
    assert_eq!(videos[0].views, 1);
    let show = ViewCommand {
        subcommand: ViewSubcommand::Show(VideoQuery { id: Some(5), name: None }),
    };
    match handle_view_command(&mut videos, show) {
        ViewCommandOutcome::Shown(Ok(v)) => {
            assert_eq!(v.name, "clip".to_string());
            assert_eq!(v.views, 1);
        },
        _ => panic!("expected a shown outcome"),
    }
}

#[test]
fn args_model_holds_a_whole_invocation() {
    let args = RustflixArgs {
        entity_type: EntityType::View(ViewCommand {
            subcommand: ViewSubcommand::Show(VideoQuery { id: None, name: None }),
        }),
    };
    match args.entity_type {
        EntityType::View(c) => match c.subcommand {
            ViewSubcommand::Show(q) => assert!(q.id.is_none() && q.name.is_none()),
            _ => panic!("expected the show subcommand"),
        },
        _ => panic!("expected a view command"),
    }
}
