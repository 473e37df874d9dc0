//! The typed command surface: one entity-specific command per entity kind,
//! dispatched to the engine with the confirmation gate's answer.

use vstd::prelude::*;

use crate::users::{
    create_user, create_user_post, delete_user, delete_user_post, list_users, list_users_post,
    update_user, update_user_post, users_view, CreateUser, ShowUser, UpdateUser, User,
    UserCommandError, UserQuery, UserUpdateReport, UserView,
};
use crate::videos::{
    create_video, create_video_post, delete_video, delete_video_post, list_videos,
    list_videos_post, update_video, update_video_post, videos_view, CreateVideo, ListVideo,
    UpdateVideo, Video, VideoCommandError, VideoQuery, VideoUpdateReport, VideoView,
};
use crate::views::{add_views, add_views_post, show_views, show_views_post, AddViews};

verus! {

/// The parsed arguments of one invocation: which entity kind to operate
/// on, with that kind's own subcommand.
pub struct RustflixArgs {
    pub entity_type: EntityType,
}

/// Create, update, delete, or show users or videos; add or show views on a
/// video.
pub enum EntityType {
    User(UserCommand),
    Video(VideoCommand),
    View(ViewCommand),
}

pub struct UserCommand {
    pub subcommand: UserSubcommand,
}

pub enum UserSubcommand {
    Create(CreateUser),
    Update(UpdateUser),
    Delete(UserQuery),
    List(ShowUser),
}

pub struct VideoCommand {
    pub subcommand: VideoSubcommand,
}

pub enum VideoSubcommand {
    Create(CreateVideo),
    Update(UpdateVideo),
    Delete(VideoQuery),
    List(ListVideo),
}

pub struct ViewCommand {
    pub subcommand: ViewSubcommand,
}

pub enum ViewSubcommand {
    Add(AddViews),
    Show(VideoQuery),
}

/// The outcome of one user command, one variant per subcommand.
pub enum UserCommandOutcome {
    Created(Result<User, UserCommandError>),
    Updated(Result<UserUpdateReport, UserCommandError>),
    Deleted(Result<User, UserCommandError>),
    Listed(Result<Vec<User>, UserCommandError>),
}

/// What `handle_user_command` guarantees: each subcommand's outcome obeys
/// that operation's own contract.
pub open spec fn handle_user_post(
    pre: Seq<UserView>,
    post: Seq<UserView>,
    command: UserCommand,
    approve: bool,
    r: UserCommandOutcome,
) -> bool {
    match command.subcommand {
        UserSubcommand::Create(c) => r matches UserCommandOutcome::Created(res)
            && create_user_post(pre, post, c.name@, c.email@, res),
        UserSubcommand::Update(u) => r matches UserCommandOutcome::Updated(res)
            && update_user_post(pre, post, u, res),
        UserSubcommand::Delete(q) => r matches UserCommandOutcome::Deleted(res)
            && delete_user_post(pre, post, q@, approve, res),
        UserSubcommand::List(s) => r matches UserCommandOutcome::Listed(res) && post == pre
            && list_users_post(pre, s, res),
    }
}

/// Dispatches one user command to the engine. `approve` is the
/// confirmation gate's answer, consulted only by the delete subcommand.
pub fn handle_user_command(users: &mut Vec<User>, command: UserCommand, approve: bool) -> (r:
    UserCommandOutcome)
    requires
        old(users)@.len() <= u32::MAX as usize,
    ensures
        handle_user_post(users_view(old(users)@), users_view(final(users)@), command, approve, r),
{
    match command.subcommand {
        UserSubcommand::Create(c) => UserCommandOutcome::Created(create_user(users, c)),
        UserSubcommand::Update(u) => UserCommandOutcome::Updated(update_user(users, &u)),
        UserSubcommand::Delete(q) => UserCommandOutcome::Deleted(delete_user(users, &q, approve)),
        UserSubcommand::List(s) => UserCommandOutcome::Listed(list_users(users, &s)),
    }
}

/// The outcome of one video command, one variant per subcommand.
pub enum VideoCommandOutcome {
    Created(Video),
    Updated(Result<VideoUpdateReport, VideoCommandError>),
    Deleted(Result<Video, VideoCommandError>),
    Listed(Result<Vec<Video>, VideoCommandError>),
}

/// What `handle_video_command` guarantees: each subcommand's outcome obeys
/// that operation's own contract.
pub open spec fn handle_video_post(
    pre: Seq<VideoView>,
    post: Seq<VideoView>,
    command: VideoCommand,
    approve: bool,
    r: VideoCommandOutcome,
) -> bool {
    match command.subcommand {
        VideoSubcommand::Create(c) => r matches VideoCommandOutcome::Created(v)
            && create_video_post(pre, post, c.name@, v),
        VideoSubcommand::Update(u) => r matches VideoCommandOutcome::Updated(res)
            && update_video_post(pre, post, u, approve, res),
        VideoSubcommand::Delete(q) => r matches VideoCommandOutcome::Deleted(res)
            && delete_video_post(pre, post, q@, approve, res),
        VideoSubcommand::List(s) => r matches VideoCommandOutcome::Listed(res) && post == pre
            && list_videos_post(pre, s, res),
    }
}

/// Dispatches one video command to the engine. `approve` is the
/// confirmation gate's answer, consulted by delete and by an update that
/// overwrites the view counter.
pub fn handle_video_command(videos: &mut Vec<Video>, command: VideoCommand, approve: bool) -> (r:
    VideoCommandOutcome)
    requires
        old(videos)@.len() <= u32::MAX as usize,
    ensures
        handle_video_post(
            videos_view(old(videos)@),
            videos_view(final(videos)@),
            command,
            approve,
            r,
        ),
{
    match command.subcommand {
        VideoSubcommand::Create(c) => VideoCommandOutcome::Created(create_video(videos, c)),
        VideoSubcommand::Update(u) => VideoCommandOutcome::Updated(
            update_video(videos, &u, approve),
        ),
        VideoSubcommand::Delete(q) => VideoCommandOutcome::Deleted(
            delete_video(videos, &q, approve),
        ),
        VideoSubcommand::List(s) => VideoCommandOutcome::Listed(list_videos(videos, &s)),
    }
}

/// The outcome of one view command, one variant per subcommand.
pub enum ViewCommandOutcome {
    Added(Result<Video, VideoCommandError>),
    Shown(Result<Video, VideoCommandError>),
}

/// What `handle_view_command` guarantees: each subcommand's outcome obeys
/// that operation's own contract, and showing never mutates.
pub open spec fn handle_view_post(
    pre: Seq<VideoView>,
    post: Seq<VideoView>,
    command: ViewCommand,
    r: ViewCommandOutcome,
) -> bool {
    match command.subcommand {
        ViewSubcommand::Add(a) => r matches ViewCommandOutcome::Added(res)
            && add_views_post(pre, post, a, res),
        ViewSubcommand::Show(q) => r matches ViewCommandOutcome::Shown(res) && post == pre
            && show_views_post(pre, q@, res),
    }
}

/// Dispatches one view command to the engine.
pub fn handle_view_command(videos: &mut Vec<Video>, command: ViewCommand) -> (r: ViewCommandOutcome)
    requires
        old(videos)@.len() <= u32::MAX as usize,
    ensures
        handle_view_post(videos_view(old(videos)@), videos_view(final(videos)@), command, r),
{
    match command.subcommand {
        ViewSubcommand::Add(a) => ViewCommandOutcome::Added(add_views(videos, &a)),
        ViewSubcommand::Show(q) => ViewCommandOutcome::Shown(show_views(videos, &q)),
    }
}

} // verus!
