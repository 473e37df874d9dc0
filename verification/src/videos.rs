//! Video records and the query-and-mutation engine over them.

use vstd::prelude::*;

use crate::counting::{
    count_where, lemma_count_where_bounds, lemma_count_where_disjoint, lemma_count_where_push,
    lemma_id_exhaustion, lemma_where_seq_push, where_seq,
};
use crate::rng::random_u32;
use crate::users::{clone_opt, opt_str_view};

verus! {

/// One persisted video record. The `id` is unique within a collection and
/// immutable after creation; `views` counts the accumulated views.
pub struct Video {
    pub id: u32,
    pub name: String,
    pub views: u32,
}

/// Mathematical model of a [`Video`].
pub ghost struct VideoView {
    pub id: u32,
    pub name: Seq<char>,
    pub views: u32,
}

impl View for Video {
    type V = VideoView;

    open spec fn view(&self) -> VideoView {
        VideoView { id: self.id, name: self.name@, views: self.views }
    }
}

impl Clone for Video {
    /// Cloning a record keeps it equal to the original.
    fn clone(&self) -> (r: Self)
        ensures
            r == *self,
    {
        let r = Video { id: self.id, name: self.name.clone(), views: self.views };
        proof {
            assert(r == *self);
        }
        r
    }
}

impl PartialEq for Video {
    /// Records compare equal exactly when all their fields do.
    fn eq(&self, other: &Self) -> (r: bool) {
        self.id == other.id && self.name == other.name && self.views == other.views
    }
}

impl vstd::std_specs::cmp::PartialEqSpecImpl for Video {
    open spec fn obeys_eq_spec() -> bool {
        true
    }

    open spec fn eq_spec(&self, other: &Self) -> bool {
        self@ == other@
    }
}

/// The model of a whole collection: each record's model, in order.
pub open spec fn videos_view(videos: Seq<Video>) -> Seq<VideoView> {
    videos.map_values(|v: Video| v@)
}

/// A set of optional predicates locating video records: by id and/or by
/// name.
pub struct VideoQuery {
    pub id: Option<u32>,
    pub name: Option<String>,
}

/// Mathematical model of a [`VideoQuery`].
pub ghost struct VideoQueryView {
    pub id: Option<u32>,
    pub name: Option<Seq<char>>,
}

impl View for VideoQuery {
    type V = VideoQueryView;

    open spec fn view(&self) -> VideoQueryView {
        VideoQueryView { id: self.id, name: opt_str_view(self.name) }
    }
}

/// Does the query hold at least one predicate?
pub open spec fn video_query_present(q: VideoQueryView) -> bool {
    q.id is Some || q.name is Some
}

/// The record's id satisfies the query's id predicate.
pub open spec fn video_id_matches(v: VideoView, q: VideoQueryView) -> bool {
    q.id matches Some(id) && v.id == id
}

/// The record's name satisfies the query's name predicate.
pub open spec fn video_name_matches(v: VideoView, q: VideoQueryView) -> bool {
    q.name matches Some(n) && v.name == n
}

/// The record satisfies at least one present predicate.
pub open spec fn video_query_matches(v: VideoView, q: VideoQueryView) -> bool {
    video_id_matches(v, q) || video_name_matches(v, q)
}

/// The record is counted under the id predicate: predicates are evaluated
/// in the fixed order id, name, and the first that matches claims the
/// record.
pub open spec fn video_counted_as_id(v: VideoView, q: VideoQueryView) -> bool {
    video_id_matches(v, q)
}

/// The record is counted under the name predicate (it did not already
/// match by id).
pub open spec fn video_counted_as_name(v: VideoView, q: VideoQueryView) -> bool {
    !video_id_matches(v, q) && video_name_matches(v, q)
}

/// How many records the query matches in all.
pub open spec fn video_total_match_count(videos: Seq<VideoView>, q: VideoQueryView) -> int {
    count_where(videos, |v: VideoView| video_query_matches(v, q))
}

/// How many records are counted under the id predicate.
pub open spec fn video_id_match_count(videos: Seq<VideoView>, q: VideoQueryView) -> int {
    count_where(videos, |v: VideoView| video_counted_as_id(v, q))
}

/// How many records are counted under the name predicate.
pub open spec fn video_name_match_count(videos: Seq<VideoView>, q: VideoQueryView) -> int {
    count_where(videos, |v: VideoView| video_counted_as_name(v, q))
}

/// The matched records, in collection order.
pub open spec fn matching_videos(videos: Seq<VideoView>, q: VideoQueryView) -> Seq<VideoView> {
    where_seq(videos, |v: VideoView| video_query_matches(v, q))
}

/// Each matched record is counted exactly once, under the first predicate
/// that matches it: the per-predicate counts partition the matched records.
pub proof fn lemma_video_match_counts_partition(videos: Seq<VideoView>, q: VideoQueryView)
    ensures
        video_total_match_count(videos, q) == video_id_match_count(videos, q)
            + video_name_match_count(videos, q),
{
    let by_id = |v: VideoView| video_counted_as_id(v, q);
    let by_name = |v: VideoView| video_counted_as_name(v, q);
    let any = |v: VideoView| video_query_matches(v, q);
    lemma_count_where_disjoint(videos, by_id, by_name, any);
}

/// Does some record in `videos` carry the id `id`?
pub open spec fn spec_video_has_id(videos: Seq<VideoView>, id: u32) -> bool {
    exists|i: int| 0 <= i < videos.len() && videos[i].id == id
}

/// Determines if the list of videos contains a video with the given ID.
pub fn has_id(videos: &Vec<Video>, id: u32) -> (found: bool)
    ensures
        found == spec_video_has_id(videos_view(videos@), id),
{
    let ghost vv = videos_view(videos@);
    for k in 0..videos.len()
        invariant
            vv == videos_view(videos@),
            forall|i: int| 0 <= i < k ==> vv[i].id != id,
    {
        if videos[k].id == id {
            assert(vv[k as int].id == id);
            return true;
        }
    }
    false
}

/// Generates an unused ID for a new video.
///
/// Ids are drawn uniformly from the whole unsigned 32-bit range and redrawn
/// on collision. Collisions are rare for any realistic collection, so the
/// retries are bounded; in the degenerate case that every draw collided,
/// the candidates `0 ..= len` are scanned, among which one id is always
/// free in a collection of at most `u32::MAX` records.
pub fn generate_valid_id(videos: &Vec<Video>) -> (id: u32)
    requires
        videos@.len() <= u32::MAX as usize,
    ensures
        !spec_video_has_id(videos_view(videos@), id),
{
    let ghost vv = videos_view(videos@);
    let mut tries: u32 = 0;
    while tries < 64
        invariant
            vv == videos_view(videos@),
        decreases 64 - tries,
    {
        let id = random_u32();
        if !has_id(videos, id) {
            return id;
        }
        tries = tries + 1;
    }
    let n = videos.len();
    let mut k: usize = 0;
    while k < n
        invariant
            vv == videos_view(videos@),
            n == videos@.len(),
            n <= u32::MAX as usize,
            k <= n,
            forall|c: int| 0 <= c < k ==> #[trigger] spec_video_has_id(vv, c as u32),
        decreases n - k,
    {
        if !has_id(videos, k as u32) {
            return k as u32;
        }
        k = k + 1;
    }
    if !has_id(videos, n as u32) {
        return n as u32;
    }
    proof {
        let ids = vv.map_values(|v: VideoView| v.id as int);
        lemma_id_exhaustion(ids, n as int);
        let c = choose|c: int| 0 <= c <= n as int && !ids.contains(c);
        assert(spec_video_has_id(vv, c as u32));
        let w = choose|i: int| 0 <= i < vv.len() && vv[i].id == c as u32;
        assert(ids[w] == c);
        assert(false);
    }
    0
}

/// Error conditions of the engine's commands over videos.
#[derive(Debug)]
pub enum VideoCommandError {
    NoQueryProvided,
    NotFound,
    Ambiguous(MatchedQueries),
    UserCancelled,
    InternalError,
}

/// Contains the number of matches for each query field.
#[derive(Debug)]
pub struct MatchedQueries {
    pub id: u32,
    pub name: u32,
}

/// Error returned from `find_video`: either no record matched, or several
/// did, with the per-predicate match counts for diagnostics.
#[derive(Debug)]
pub enum FindError {
    NoVideoFound,
    MultipleVideosFound(MatchedQueries),
}

/// The query matched exactly the record `v`, which sits in the collection.
pub open spec fn video_unique_match(vv: Seq<VideoView>, qv: VideoQueryView, v: VideoView) -> bool {
    &&& video_total_match_count(vv, qv) == 1
    &&& video_query_matches(v, qv)
    &&& exists|i: int| 0 <= i < vv.len() && vv[i] == v
}

/// The counts carried by an ambiguous outcome are exactly the
/// per-predicate match counts of the scan.
pub open spec fn video_ambiguous_counts(
    vv: Seq<VideoView>,
    qv: VideoQueryView,
    m: MatchedQueries,
) -> bool {
    &&& video_total_match_count(vv, qv) > 1
    &&& m.id as int == video_id_match_count(vv, qv)
    &&& m.name as int == video_name_match_count(vv, qv)
}

/// Finds a video in the given list of videos matching the given query.
///
/// Every record is scanned once; the first present predicate that matches
/// a record claims it. The outcome classifies the number of matched
/// records: zero, exactly one (returned), or several (reported with the
/// per-predicate counts).
pub fn find_video<'a>(videos: &'a Vec<Video>, query: &VideoQuery) -> (r: Result<
    &'a Video,
    FindError,
>)
    requires
        videos@.len() <= u32::MAX as usize,
    ensures
        match r {
            Ok(v) => video_unique_match(videos_view(videos@), query@, v@),
            Err(FindError::NoVideoFound) => video_total_match_count(
                videos_view(videos@),
                query@,
            ) == 0,
            Err(FindError::MultipleVideosFound(m)) => video_ambiguous_counts(
                videos_view(videos@),
                query@,
                m,
            ),
        },
{
    let ghost vv = videos_view(videos@);
    let ghost qv = query@;
    let mut id_m: u32 = 0;
    let mut name_m: u32 = 0;
    let mut total: u32 = 0;
    let mut first: usize = 0;
    let mut found_any = false;
    for k in 0..videos.len()
        invariant
            vv == videos_view(videos@),
            qv == query@,
            videos@.len() <= u32::MAX as usize,
            id_m as int == video_id_match_count(vv.take(k as int), qv),
            name_m as int == video_name_match_count(vv.take(k as int), qv),
            total as int == video_total_match_count(vv.take(k as int), qv),
            found_any ==> first < k && video_query_matches(vv[first as int], qv),
            found_any == (total > 0),
    {
        proof {
            assert(vv.take(k as int + 1) =~= vv.take(k as int).push(vv[k as int]));
            lemma_count_where_push(
                vv.take(k as int),
                |v: VideoView| video_query_matches(v, qv),
                vv[k as int],
            );
            lemma_count_where_push(
                vv.take(k as int),
                |v: VideoView| video_counted_as_id(v, qv),
                vv[k as int],
            );
            lemma_count_where_push(
                vv.take(k as int),
                |v: VideoView| video_counted_as_name(v, qv),
                vv[k as int],
            );
            lemma_count_where_bounds(vv.take(k as int), |v: VideoView| video_query_matches(v, qv));
            lemma_count_where_bounds(vv.take(k as int), |v: VideoView| video_counted_as_id(v, qv));
            lemma_count_where_bounds(vv.take(k as int), |v: VideoView| video_counted_as_name(v, qv));
        }
        let v = &videos[k];
        let mut matched = false;
        if let Some(qid) = query.id {
            if v.id == qid {
                id_m = id_m + 1;
                matched = true;
            }
        }
        if !matched {
            if let Some(qname) = &query.name {
                if v.name == *qname {
                    name_m = name_m + 1;
                    matched = true;
                }
            }
        }
        assert(matched == video_query_matches(vv[k as int], qv));
        if matched {
            total = total + 1;
            if !found_any {
                first = k;
                found_any = true;
            }
        }
    }
    proof {
        assert(vv.take(videos@.len() as int) =~= vv);
    }
    if total == 0 {
        return Err(FindError::NoVideoFound);
    }
    if total > 1 {
        return Err(FindError::MultipleVideosFound(MatchedQueries { id: id_m, name: name_m }));
    }
    Ok(&videos[first])
}

/// Finds every video matching the given query, in collection order.
pub fn find_videos(videos: &Vec<Video>, video_query: &VideoQuery) -> (r: Result<
    Vec<Video>,
    FindError,
>)
    ensures
        match r {
            Ok(v) => videos_view(v@) == matching_videos(videos_view(videos@), video_query@)
                && v@.len() > 0,
            Err(e) => e == FindError::NoVideoFound && matching_videos(
                videos_view(videos@),
                video_query@,
            ).len() == 0,
        },
{
    let ghost vv = videos_view(videos@);
    let ghost qv = video_query@;
    let mut found_videos: Vec<Video> = Vec::new();
    for k in 0..videos.len()
        invariant
            vv == videos_view(videos@),
            qv == video_query@,
            videos_view(found_videos@) == matching_videos(vv.take(k as int), qv),
    {
        proof {
            assert(vv.take(k as int + 1) =~= vv.take(k as int).push(vv[k as int]));
            lemma_where_seq_push(
                vv.take(k as int),
                |v: VideoView| video_query_matches(v, qv),
                vv[k as int],
            );
        }
        let v = &videos[k];
        let mut matched = false;
        if let Some(qid) = video_query.id {
            if v.id == qid {
                matched = true;
            }
        }
        if !matched {
            if let Some(qname) = &video_query.name {
                if v.name == *qname {
                    matched = true;
                }
            }
        }
        assert(matched == video_query_matches(vv[k as int], qv));
        if matched {
            found_videos.push(v.clone());
            proof {
                assert(videos_view(found_videos@) =~= matching_videos(vv.take(k as int + 1), qv));
            }
        } else {
            proof {
                assert(videos_view(found_videos@) =~= matching_videos(vv.take(k as int + 1), qv));
            }
        }
    }
    proof {
        assert(vv.take(videos@.len() as int) =~= vv);
    }
    if found_videos.len() == 0 {
        proof {
            assert(videos_view(found_videos@).len() == 0);
        }
        return Err(FindError::NoVideoFound);
    }
    proof {
        assert(videos_view(found_videos@).len() > 0);
    }
    Ok(found_videos)
}

/// Clones a whole collection, keeping its records.
fn clone_videos(videos: &Vec<Video>) -> (r: Vec<Video>)
    ensures
        r@ == videos@,
{
    let mut out: Vec<Video> = Vec::new();
    for k in 0..videos.len()
        invariant
            out@ == videos@.take(k as int),
    {
        out.push(videos[k].clone());
        proof {
            assert(videos@.take(k as int + 1) =~= videos@.take(k as int).push(videos@[k as int]));
        }
    }
    proof {
        assert(videos@.take(videos@.len() as int) =~= videos@);
    }
    out
}

/// Re-locates a record in the collection by equality of its contents.
///
/// Once a unique match is resolved, mutation must address the record by
/// identity rather than by re-running the query, since record equality,
/// not array position, determines the slot to modify.
pub(crate) fn position_of_video(videos: &Vec<Video>, target: &Video) -> (r: Option<usize>)
    ensures
        match r {
            Some(i) => i < videos@.len() && videos@[i as int]@ == target@,
            None => forall|i: int| 0 <= i < videos@.len() ==> videos@[i]@ != target@,
        },
{
    for k in 0..videos.len()
        invariant
            forall|i: int| 0 <= i < k ==> videos@[i]@ != target@,
    {
        if videos[k] == *target {
            return Some(k);
        }
    }
    None
}

/// The fields a new video is created from; the id is assigned by the
/// engine and the view counter starts at zero.
pub struct CreateVideo {
    pub name: String,
}

/// What `create_video` guarantees: the record is appended with a fresh id
/// and a zero view counter.
pub open spec fn create_video_post(
    pre: Seq<VideoView>,
    post: Seq<VideoView>,
    name: Seq<char>,
    v: Video,
) -> bool {
    &&& v@.name == name
    &&& v@.views == 0
    &&& !spec_video_has_id(pre, v@.id)
    &&& post == pre.push(v@)
}

/// Handles the creation of a new video.
///
/// Videos carry no uniqueness-constrained field, so creation always
/// succeeds: the record is appended under a freshly generated id with a
/// zero view counter and returned, so the caller can report its id.
pub fn create_video(videos: &mut Vec<Video>, create: CreateVideo) -> (v: Video)
    requires
        old(videos)@.len() <= u32::MAX as usize,
    ensures
        create_video_post(videos_view(old(videos)@), videos_view(final(videos)@), create.name@, v),
{
    let id = generate_valid_id(videos);
    let video = Video { id, name: create.name, views: 0 };
    videos.push(video.clone());
    proof {
        assert(videos_view(videos@) =~= videos_view(old(videos)@).push(video@));
    }
    video
}

/// The query locating the video to update, and the optional new values of
/// its mutable fields; fields left unset are not touched.
pub struct UpdateVideo {
    pub query_id: Option<u32>,
    pub query_name: Option<String>,
    pub new_name: Option<String>,
    pub new_views: Option<u32>,
}

impl UpdateVideo {
    /// The query part of the update arguments.
    pub open spec fn spec_query(&self) -> VideoQueryView {
        VideoQueryView { id: self.query_id, name: opt_str_view(self.query_name) }
    }
}

/// The record as it stood before the mutation and as it stands after, for
/// diff reporting.
pub struct VideoUpdateReport {
    pub before: Video,
    pub after: Video,
}

/// The record `v` after a sparse update: each provided field is replaced,
/// each absent field keeps its prior value, and the id never changes.
pub open spec fn updated_video(
    v: VideoView,
    new_name: Option<Seq<char>>,
    new_views: Option<u32>,
) -> VideoView {
    VideoView {
        id: v.id,
        name: match new_name {
            Some(n) => n,
            None => v.name,
        },
        views: match new_views {
            Some(w) => w,
            None => v.views,
        },
    }
}

/// What `update_video` guarantees, case by case over the query's outcome
/// and, for a view-counter overwrite, the confirmation gate's answer.
pub open spec fn update_video_post(
    pre: Seq<VideoView>,
    post: Seq<VideoView>,
    update: UpdateVideo,
    approve: bool,
    r: Result<VideoUpdateReport, VideoCommandError>,
) -> bool {
    let q = update.spec_query();
    if !video_query_present(q) {
        &&& r matches Err(VideoCommandError::NoQueryProvided)
        &&& post == pre
    } else if video_total_match_count(pre, q) == 0 {
        &&& r matches Err(VideoCommandError::NotFound)
        &&& post == pre
    } else if video_total_match_count(pre, q) > 1 {
        &&& r matches Err(VideoCommandError::Ambiguous(m)) && video_ambiguous_counts(pre, q, m)
        &&& post == pre
    } else if update.new_views is Some && !approve {
        &&& r matches Err(VideoCommandError::UserCancelled)
        &&& post == pre
    } else {
        r matches Ok(rep) && exists|i: int|
            {
                &&& 0 <= i < pre.len()
                &&& #[trigger] video_query_matches(pre[i], q)
                &&& rep.before@ == pre[i]
                &&& rep.after@ == updated_video(
                    pre[i],
                    opt_str_view(update.new_name),
                    update.new_views,
                )
                &&& post == pre.update(i, rep.after@)
            }
    }
}

/// Handles the updating of an existing video.
///
/// A non-empty query is required; it must resolve to exactly one record,
/// or the operation aborts with no mutation. Overwriting the view counter
/// is a consequential change and is gated on the confirmation answer
/// `approve`; a declined gate cancels the whole update. Otherwise each
/// provided new value is applied to the re-located record and the
/// before/after snapshot is returned for diff reporting.
pub fn update_video(videos: &mut Vec<Video>, update: &UpdateVideo, approve: bool) -> (r: Result<
    VideoUpdateReport,
    VideoCommandError,
>)
    requires
        old(videos)@.len() <= u32::MAX as usize,
    ensures
        update_video_post(
            videos_view(old(videos)@),
            videos_view(final(videos)@),
            *update,
            approve,
            r,
        ),
{
    let ghost vv = videos_view(videos@);
    let ghost qv = update.spec_query();
    if update.query_id.is_none() && update.query_name.is_none() {
        return Err(VideoCommandError::NoQueryProvided);
    }
    let video_query = VideoQuery { id: update.query_id, name: clone_opt(&update.query_name) };
    let target = match find_video(videos, &video_query) {
        Ok(found) => found.clone(),
        Err(FindError::NoVideoFound) => {
            return Err(VideoCommandError::NotFound);
        },
        Err(FindError::MultipleVideosFound(m)) => {
            return Err(VideoCommandError::Ambiguous(m));
        },
    };
    if update.new_views.is_some() && !approve {
        return Err(VideoCommandError::UserCancelled);
    }
    let ghost w = choose|i: int| 0 <= i < vv.len() && vv[i] == target@;
    // A resolved match can always be re-located; the unreachable branch
    // still fails loudly rather than risking a silent corruption.
    let j = match position_of_video(videos, &target) {
        Some(j) => j,
        None => {
            proof {
                assert(videos@[w]@ != target@);
                assert(false);
            }
            return Err(VideoCommandError::InternalError);
        },
    };
    let before = videos[j].clone();
    let new_name = match &update.new_name {
        Some(n) => n.clone(),
        None => before.name.clone(),
    };
    let new_views = match update.new_views {
        Some(w) => w,
        None => before.views,
    };
    let after = Video { id: before.id, name: new_name, views: new_views };
    let _ = videos.remove(j);
    videos.insert(j, after.clone());
    proof {
        assert(videos_view(videos@) =~= vv.update(j as int, after@));
        assert(video_query_matches(vv[j as int], qv));
    }
    Ok(VideoUpdateReport { before, after })
}

/// What `delete_video` guarantees, case by case over the query's outcome
/// and the confirmation gate's answer.
pub open spec fn delete_video_post(
    pre: Seq<VideoView>,
    post: Seq<VideoView>,
    q: VideoQueryView,
    approve: bool,
    r: Result<Video, VideoCommandError>,
) -> bool {
    if !video_query_present(q) {
        &&& r matches Err(VideoCommandError::NoQueryProvided)
        &&& post == pre
    } else if video_total_match_count(pre, q) == 0 {
        &&& r matches Err(VideoCommandError::NotFound)
        &&& post == pre
    } else if video_total_match_count(pre, q) > 1 {
        &&& r matches Err(VideoCommandError::Ambiguous(m)) && video_ambiguous_counts(pre, q, m)
        &&& post == pre
    } else if !approve {
        &&& r matches Err(VideoCommandError::UserCancelled)
        &&& post == pre
    } else {
        r matches Ok(v) && exists|i: int|
            {
                &&& 0 <= i < pre.len()
                &&& #[trigger] video_query_matches(pre[i], q)
                &&& v@ == pre[i]
                &&& post == pre.remove(i)
            }
    }
}

/// Handles the deletion of an existing video.
///
/// A non-empty query is required and must resolve to exactly one record.
/// Deletion is destructive, so it is always gated on the confirmation
/// answer `approve`: a declined gate cancels the operation with no
/// mutation. On approval the record is re-located by identity, removed,
/// and returned.
pub fn delete_video(videos: &mut Vec<Video>, video_query: &VideoQuery, approve: bool) -> (r: Result<
    Video,
    VideoCommandError,
>)
    requires
        old(videos)@.len() <= u32::MAX as usize,
    ensures
        delete_video_post(
            videos_view(old(videos)@),
            videos_view(final(videos)@),
            video_query@,
            approve,
            r,
        ),
{
    let ghost vv = videos_view(videos@);
    let ghost qv = video_query@;
    if video_query.id.is_none() && video_query.name.is_none() {
        return Err(VideoCommandError::NoQueryProvided);
    }
    let target = match find_video(videos, video_query) {
        Ok(found) => found.clone(),
        Err(FindError::NoVideoFound) => {
            return Err(VideoCommandError::NotFound);
        },
        Err(FindError::MultipleVideosFound(m)) => {
            return Err(VideoCommandError::Ambiguous(m));
        },
    };
    if !approve {
        return Err(VideoCommandError::UserCancelled);
    }
    let ghost w = choose|i: int| 0 <= i < vv.len() && vv[i] == target@;
    // A resolved match can always be re-located; the unreachable branch
    // still fails loudly rather than risking a silent corruption.
    let j = match position_of_video(videos, &target) {
        Some(j) => j,
        None => {
            proof {
                assert(videos@[w]@ != target@);
                assert(false);
            }
            return Err(VideoCommandError::InternalError);
        },
    };
    let removed = videos.remove(j);
    proof {
        assert(videos_view(videos@) =~= vv.remove(j as int));
        assert(video_query_matches(vv[j as int], qv));
    }
    Ok(removed)
}

/// The arguments of a listing: either every record, or those matching a
/// non-empty query.
pub struct ListVideo {
    pub all: bool,
    pub id: Option<u32>,
    pub name: Option<String>,
}

impl ListVideo {
    /// The query part of the listing arguments.
    pub open spec fn spec_query(&self) -> VideoQueryView {
        VideoQueryView { id: self.id, name: opt_str_view(self.name) }
    }
}

/// What `list_videos` guarantees: all records in list-all mode, the
/// matched records otherwise, and never a mutation.
pub open spec fn list_videos_post(
    pre: Seq<VideoView>,
    show: ListVideo,
    r: Result<Vec<Video>, VideoCommandError>,
) -> bool {
    if show.all {
        r matches Ok(v) && videos_view(v@) == pre
    } else if !video_query_present(show.spec_query()) {
        r matches Err(VideoCommandError::NoQueryProvided)
    } else if matching_videos(pre, show.spec_query()).len() == 0 {
        r matches Err(VideoCommandError::NotFound)
    } else {
        r matches Ok(v) && videos_view(v@) == matching_videos(pre, show.spec_query())
    }
}

/// Handles the listing of videos: every record in list-all mode, otherwise
/// the records matching the given non-empty query. Listing never mutates
/// the collection.
pub fn list_videos(videos: &Vec<Video>, show_video: &ListVideo) -> (r: Result<
    Vec<Video>,
    VideoCommandError,
>)
    ensures
        list_videos_post(videos_view(videos@), *show_video, r),
{
    if show_video.all {
        return Ok(clone_videos(videos));
    }
    if show_video.id.is_none() && show_video.name.is_none() {
        return Err(VideoCommandError::NoQueryProvided);
    }
    let video_query = VideoQuery { id: show_video.id, name: clone_opt(&show_video.name) };
    match find_videos(videos, &video_query) {
        Ok(found) => Ok(found),
        Err(FindError::NoVideoFound) => Err(VideoCommandError::NotFound),
        Err(FindError::MultipleVideosFound(_)) => Err(VideoCommandError::NotFound),
    }
}

/// No two records of the collection share an id.
pub open spec fn video_ids_unique(videos: Seq<VideoView>) -> bool {
    forall|i: int, j: int| 0 <= i < j < videos.len() ==> videos[i].id != videos[j].id
}

/// A sparse update never changes a record's id, so it keeps the ids
/// pairwise distinct.
pub proof fn lemma_video_update_keeps_unique_ids(videos: Seq<VideoView>, i: int, after: VideoView)
    requires
        video_ids_unique(videos),
        0 <= i < videos.len(),
        after.id == videos[i].id,
    ensures
        video_ids_unique(videos.update(i, after)),
{
}

/// Removing a record keeps the remaining ids pairwise distinct.
pub proof fn lemma_video_remove_keeps_unique_ids(videos: Seq<VideoView>, i: int)
    requires
        video_ids_unique(videos),
        0 <= i < videos.len(),
    ensures
        video_ids_unique(videos.remove(i)),
{
    let post = videos.remove(i);
    assert forall|a: int, b: int| 0 <= a < b < post.len() implies post[a].id != post[b].id by {
        let a0 = if a < i { a } else { a + 1 };
        let b0 = if b < i { b } else { b + 1 };
        assert(post[a] == videos[a0] && post[b] == videos[b0]);
    }
}

/// Appending a record whose id no existing record carries keeps the ids
/// pairwise distinct: over any number of creations into an initially
/// empty collection, the generated ids never collide.
pub proof fn lemma_fresh_video_id_preserves_unique_ids(videos: Seq<VideoView>, v: VideoView)
    requires
        video_ids_unique(videos),
        !spec_video_has_id(videos, v.id),
    ensures
        video_ids_unique(videos.push(v)),
{
    let post = videos.push(v);
    assert forall|i: int, j: int| 0 <= i < j < post.len() implies post[i].id != post[j].id by {
        if j == videos.len() {
            if post[i].id == post[j].id {
                assert(videos[i].id == v.id);
                assert(spec_video_has_id(videos, v.id));
            }
        }
    }
}

} // verus!
