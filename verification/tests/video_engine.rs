use rustflix::videos::{
    create_video, delete_video, find_video, find_videos, generate_valid_id, has_id, list_videos,
    update_video, CreateVideo, FindError, ListVideo, UpdateVideo, Video, VideoCommandError,
    VideoQuery,
};

fn make_videos() -> Vec<Video> {
    vec![
        Video { id: 2829304751, name: "test".to_string(), views: 0 },
        Video { id: 1525162981, name: "test2".to_string(), views: 0 },
        Video { id: 986712257, name: "test3".to_string(), views: 0 },
        Video { id: 2453202404, name: "test4".to_string(), views: 0 },
        Video { id: 4036985520, name: "test5".to_string(), views: 0 },
    ]
}

#[test]
fn test_has_id() {
    let videos = make_videos();
    assert_eq!(has_id(&videos, 2829304751), true);
    assert_eq!(has_id(&videos, 1), false);
}

#[test]
fn test_generate_valid_id() {
    let videos = make_videos();
    for _ in 0..100 {
        let id = generate_valid_id(&videos);
        assert_eq!(has_id(&videos, id), false);
    }
}

#[test]
fn generate_avoids_random_id_sets() {
    for _ in 0..20 {
        let mut videos: Vec<Video> = Vec::new();
        let n = 1 + rand::Rng::gen_range(&mut rand::thread_rng(), 0..50usize);
        for k in 0..n {
            let id: u32 = rand::random();
            if !has_id(&videos, id) {
                videos.push(Video { id, name: format!("v{}", k), views: 0 });
            }
        }
        let id = generate_valid_id(&videos);
        assert!(!has_id(&videos, id));
    }
}

#[test]
fn generate_avoids_dense_id_range() {
    let mut videos: Vec<Video> = Vec::new();
    for i in 0..200u32 {
        videos.push(Video { id: i, name: format!("v{}", i), views: i });
    }
    for _ in 0..100 {
        let id = generate_valid_id(&videos);
        assert!(!has_id(&videos, id));
    }
}

#[test]
fn create_video_starts_at_zero_views() {
    let mut videos = make_videos();
    let v = create_video(&mut videos, CreateVideo { name: "fresh".to_string() });
    assert_eq!(v.views, 0);
    assert_eq!(v.name, "fresh".to_string());
    assert_eq!(videos.len(), 6);
    assert!(videos[5] == v);
}

#[test]
fn find_video_by_id_unique() {
    let videos = make_videos();
    let query = VideoQuery { id: Some(986712257), name: None };
    let found = find_video(&videos, &query).unwrap();
    assert_eq!(found.id, 986712257);
    assert_eq!(found.name, "test3".to_string());
}

#[test]
fn find_video_not_found() {
    let videos = make_videos();
    let query = VideoQuery { id: Some(7), name: None };
    assert!(matches!(find_video(&videos, &query), Err(FindError::NoVideoFound)));
}

#[test]
fn record_matching_two_predicates_counts_once_under_id() {
    // The first record satisfies both the id and the name predicate; it
    // must be claimed by the id counter alone, the second record by name.
    let videos = vec![
        Video { id: 1, name: "a".to_string(), views: 0 },
        Video { id: 2, name: "a".to_string(), views: 0 },
    ];
    let query = VideoQuery { id: Some(1), name: Some("a".to_string()) };
    match find_video(&videos, &query) {
        Err(FindError::MultipleVideosFound(counts)) => {
            assert_eq!(counts.id, 1);
            assert_eq!(counts.name, 1);
        },
        _ => panic!("expected an ambiguous outcome"),
    }
}

#[test]
fn update_video_views_needs_approval() {
    let mut videos = make_videos();
    let before = videos.clone();
    let update = UpdateVideo {
        query_id: Some(2829304751),
        query_name: None,
        new_name: None,
        new_views: Some(42),
    };
    let r = update_video(&mut videos, &update, false);
    assert!(matches!(r, Err(VideoCommandError::UserCancelled)));
    assert!(videos == before);
    let r = update_video(&mut videos, &update, true).unwrap();
    assert_eq!(r.before.views, 0);
    assert_eq!(r.after.views, 42);
    assert_eq!(videos[0].views, 42);
}

#[test]
fn update_video_name_only() {
    let mut videos = make_videos();
    let update = UpdateVideo {
        query_id: None,
        query_name: Some("test2".to_string()),
        new_name: Some("renamed".to_string()),
        new_views: None,
    };
    let r = update_video(&mut videos, &update, true).unwrap();
    assert_eq!(r.before.name, "test2".to_string());
    assert_eq!(r.after.name, "renamed".to_string());
    assert_eq!(r.after.views, r.before.views);
    assert_eq!(r.after.id, r.before.id);
    assert_eq!(videos[1].name, "renamed".to_string());
}

#[test]
fn update_video_no_query() {
    let mut videos = make_videos();
    let update = UpdateVideo { query_id: None, query_name: None, new_name: None, new_views: None };
    assert!(matches!(
        update_video(&mut videos, &update, true),
        Err(VideoCommandError::NoQueryProvided)
    ));
}

#[test]
fn delete_video_removes_unique_match() {
    let mut videos = make_videos();
    let query = VideoQuery { id: None, name: Some("test4".to_string()) };
    let removed = delete_video(&mut videos, &query, true).unwrap();
    assert_eq!(removed.id, 2453202404);
    assert_eq!(videos.len(), 4);
    assert!(!has_id(&videos, 2453202404));
}

#[test]
fn list_videos_all_and_filtered() {
    let videos = make_videos();
    let all = list_videos(&videos, &ListVideo { all: true, id: None, name: None }).unwrap();
    assert_eq!(all.len(), 5);
    assert!(all[0] == videos[0]);
    let some = list_videos(
        &videos,
        &ListVideo { all: false, id: Some(986712257), name: Some("test5".to_string()) },
    )
        .unwrap();
    assert_eq!(some.len(), 2);
    assert_eq!(some[0].name, "test3".to_string());
    assert_eq!(some[1].name, "test5".to_string());
    let none = list_videos(
        &videos,
        &ListVideo { all: false, id: None, name: Some("absent".to_string()) },
    );
    assert!(matches!(none, Err(VideoCommandError::NotFound)));
}

#[test]
fn find_videos_keeps_collection_order() {
    let videos = make_videos();
    let query = VideoQuery { id: Some(4036985520), name: Some("test".to_string()) };
    let found = find_videos(&videos, &query).unwrap();
    assert_eq!(found.len(), 2);
    assert_eq!(found[0].name, "test".to_string());
    assert_eq!(found[1].id, 4036985520);
}
