//! View-counter commands over the video collection.

use vstd::prelude::*;

use crate::users::{clone_opt, opt_str_view};
use crate::videos::{
    find_video, position_of_video, video_ambiguous_counts, video_query_matches,
    video_query_present, video_total_match_count, videos_view, FindError, Video, VideoCommandError,
    VideoQueryView, VideoQuery, VideoView,
};

verus! {

/// The query locating the video, and the number of views to add to it.
pub struct AddViews {
    pub name: Option<String>,
    pub id: Option<u32>,
    pub number_to_add: u32,
}

impl AddViews {
    /// The query part of the arguments.
    pub open spec fn spec_query(&self) -> VideoQueryView {
        VideoQueryView { id: self.id, name: opt_str_view(self.name) }
    }
}

/// Addition on the 32-bit view counter, wrapping around on overflow.
pub open spec fn wrap_add(a: u32, b: u32) -> u32 {
    ((a + b) % 0x1_0000_0000) as u32
}

/// What `add_views` guarantees, case by case over the query's outcome.
pub open spec fn add_views_post(
    pre: Seq<VideoView>,
    post: Seq<VideoView>,
    add: AddViews,
    r: Result<Video, VideoCommandError>,
) -> bool {
    let q = add.spec_query();
    if !video_query_present(q) {
        &&& r matches Err(VideoCommandError::NoQueryProvided)
        &&& post == pre
    } else if video_total_match_count(pre, q) == 0 {
        &&& r matches Err(VideoCommandError::NotFound)
        &&& post == pre
    } else if video_total_match_count(pre, q) > 1 {
        &&& r matches Err(VideoCommandError::Ambiguous(m)) && video_ambiguous_counts(pre, q, m)
        &&& post == pre
    } else {
        r matches Ok(v) && exists|i: int|
            {
                &&& 0 <= i < pre.len()
                &&& #[trigger] video_query_matches(pre[i], q)
                &&& v@ == VideoView {
                    id: pre[i].id,
                    name: pre[i].name,
                    views: wrap_add(pre[i].views, add.number_to_add),
                }
                &&& post == pre.update(i, v@)
            }
    }
}

/// Handles adding views to an existing video.
///
/// A non-empty query is required and must resolve to exactly one record.
/// The given number of views is added to the re-located record's counter,
/// wrapping around the 32-bit range, and the updated record is returned.
pub fn add_views(videos: &mut Vec<Video>, add: &AddViews) -> (r: Result<Video, VideoCommandError>)
    requires
        old(videos)@.len() <= u32::MAX as usize,
    ensures
        add_views_post(videos_view(old(videos)@), videos_view(final(videos)@), *add, r),
{
    let ghost vv = videos_view(videos@);
    let ghost qv = add.spec_query();
    if add.name.is_none() && add.id.is_none() {
        return Err(VideoCommandError::NoQueryProvided);
    }
    let video_query = VideoQuery { id: add.id, name: clone_opt(&add.name) };
    let target = match find_video(videos, &video_query) {
        Ok(found) => found.clone(),
        Err(FindError::NoVideoFound) => {
            return Err(VideoCommandError::NotFound);
        },
        Err(FindError::MultipleVideosFound(m)) => {
            return Err(VideoCommandError::Ambiguous(m));
        },
    };
    let ghost w = choose|i: int| 0 <= i < vv.len() && vv[i] == target@;
    // A resolved match can always be re-located; the unreachable branch
    // still fails loudly rather than risking a silent corruption.
    let j = match position_of_video(videos, &target) {
        Some(j) => j,
        None => {
            proof {
                assert(videos@[w]@ != target@);
                assert(false);
            }
            return Err(VideoCommandError::InternalError);
        },
    };
    let before = videos[j].clone();
    let sum: u64 = (before.views as u64) + (add.number_to_add as u64);
    let new_views: u32 = (sum % 0x1_0000_0000u64) as u32;
    proof {
        assert(new_views == wrap_add(before.views, add.number_to_add));
    }
    let after = Video { id: before.id, name: before.name.clone(), views: new_views };
    let _ = videos.remove(j);
    videos.insert(j, after.clone());
    proof {
        assert(videos_view(videos@) =~= vv.update(j as int, after@));
        assert(video_query_matches(vv[j as int], qv));
    }
    Ok(after)
}

/// What `show_views` guarantees: the unique matching record is returned
/// unchanged, and each failure is classified as in any single-target query.
pub open spec fn show_views_post(
    vv: Seq<VideoView>,
    q: VideoQueryView,
    r: Result<Video, VideoCommandError>,
) -> bool {
    if !video_query_present(q) {
        r matches Err(VideoCommandError::NoQueryProvided)
    } else if video_total_match_count(vv, q) == 0 {
        r matches Err(VideoCommandError::NotFound)
    } else if video_total_match_count(vv, q) > 1 {
        r matches Err(VideoCommandError::Ambiguous(m)) && video_ambiguous_counts(vv, q, m)
    } else {
        r matches Ok(v) && exists|i: int|
            0 <= i < vv.len() && #[trigger] video_query_matches(vv[i], q) && v@ == vv[i]
    }
}

/// Handles showing the views of an existing video: resolves the query to
/// exactly one record and returns it, so the caller can report its name
/// and view counter. Never mutates the collection.
pub fn show_views(videos: &Vec<Video>, video_query: &VideoQuery) -> (r: Result<
    Video,
    VideoCommandError,
>)
    requires
        videos@.len() <= u32::MAX as usize,
    ensures
        show_views_post(videos_view(videos@), video_query@, r),
{
    if video_query.name.is_none() && video_query.id.is_none() {
        return Err(VideoCommandError::NoQueryProvided);
    }
    match find_video(videos, video_query) {
        Ok(found) => Ok(found.clone()),
        Err(FindError::NoVideoFound) => Err(VideoCommandError::NotFound),
        Err(FindError::MultipleVideosFound(m)) => Err(VideoCommandError::Ambiguous(m)),
    }
}

} // verus!
