//! What the name of a location decides: its turn in a commit, and whether it is mirrored.

use crate::commit::{commit_begun, CommitProgress, CommitView};
use crate::laws::characters::{
    closes_with, has, is_last_segment, law_file_name, lemma_has, stands_at,
};
use crate::laws::commits::{law_uploads_in_turn, uploaded};
use crate::local_cache::{commit_rank, CacheView};
use crate::location::file_name;
use crate::mirror::is_primary_only;
use crate::protocol::SyncReply;
use vstd::prelude::*;

verus! {

/// The path or its last segment bears a mark of a file that publishes others.
pub open spec fn bears_publication_mark(path: Seq<char>, name: Seq<char>) -> bool {
    ||| has(path, "_latest"@)
    ||| has(path, "_versions/"@)
    ||| has(path, "/_versions"@)
    ||| has(name, "manifest"@)
    ||| has(name, "version"@)
}

/// The path or its last segment bears a mark of a file that describes others.
pub open spec fn bears_metadata_mark(path: Seq<char>, name: Seq<char>) -> bool {
    ||| has(path, "_metadata"@)
    ||| has(path, "_transactions"@)
    ||| has(path, "_indices"@)
    ||| has(name, "metadata"@)
}

/// The turn of a location in a commit is settled by the characters of its path and of its last
/// segment, and by nothing else: the last turn exactly for those with a mark of publication, the
/// one before exactly for those with a mark of metadata and none of publication, and the first for
/// all others.
pub proof fn law_rank(path: Seq<char>, name: Seq<char>)
    requires
        is_last_segment(path, name),
    ensures
        commit_rank(path) == 2 <==> bears_publication_mark(path, name),
        commit_rank(path) == 1 <==> !bears_publication_mark(path, name) && bears_metadata_mark(
            path,
            name,
        ),
        commit_rank(path) == 0 <==> !bears_publication_mark(path, name) && !bears_metadata_mark(
            path,
            name,
        ),
{
    law_file_name(path, name);
    assert(file_name(path) == name);
    lemma_has(path, "_latest"@);
    lemma_has(path, "_versions/"@);
    lemma_has(path, "/_versions"@);
    lemma_has(name, ".manifest"@);
    lemma_has(name, "manifest"@);
    lemma_has(name, "version"@);
    lemma_has(path, "_metadata"@);
    lemma_has(path, "_transactions"@);
    lemma_has(path, "_indices"@);
    lemma_has(name, "metadata"@);
    if closes_with(name, ".manifest"@) {
        lemma_dotted(name);
    }
}

proof fn lemma_dotted(name: Seq<char>)
    requires
        closes_with(name, ".manifest"@),
    ensures
        has(name, "manifest"@),
{
    reveal_strlit(".manifest");
    reveal_strlit("manifest");
    let at = name.len() - 9;
    assert("manifest"@.len() == 8);
    assert(".manifest"@.len() == 9);
    assert forall|k: int| 0 <= k < 8 implies #[trigger] name[at + 1 + k] == "manifest"@[k] by {
        assert(name[at + (k + 1)] == ".manifest"@[k + 1]);
        assert(".manifest"@[k + 1] == "manifest"@[k]);
    }
    assert(stands_at(name, "manifest"@, at + 1));
}

/// The path ends in `.manifest`.
pub open spec fn is_manifest(path: Seq<char>) -> bool {
    closes_with(path, ".manifest"@)
}

/// A path ends as its last segment does, where the ending holds no delimiter.
proof fn lemma_manifest_segment(path: Seq<char>, name: Seq<char>)
    requires
        is_last_segment(path, name),
    ensures
        closes_with(name, ".manifest"@) == is_manifest(path),
{
    reveal_strlit(".manifest");
    let part = ".manifest"@;
    assert(part.len() == 9);
    let begin = path.len() - name.len();
    if closes_with(name, part) {
        assert forall|k: int| 0 <= k < part.len() implies #[trigger] path[path.len() - part.len()
            + k] == part[k] by {
            let at = name.len() - part.len() + k;
            assert(name[name.len() - part.len() + k] == part[k]);
            assert(path[begin + at] == name[at]);
        }
        assert(stands_at(path, part, path.len() - part.len()));
    }
    if is_manifest(path) {
        if name.len() < 9 {
            let k = 9 - name.len() - 1;
            assert(path[path.len() - part.len() + k] == part[k]);
            assert(path[path.len() - name.len() - 1] == '/');
            assert(part[k] != '/');
        }
        assert forall|k: int| 0 <= k < part.len() implies #[trigger] name[name.len() - part.len()
            + k] == part[k] by {
            let at = name.len() - part.len() + k;
            assert(path[begin + at] == name[at]);
            assert(path[path.len() - part.len() + k] == part[k]);
        }
        assert(stands_at(name, part, name.len() - part.len()));
    }
}

/// A location is kept off the secondary store of a mirror exactly where its path ends in
/// `.manifest`.
pub proof fn law_manifests_alone_are_unmirrored(path: Seq<char>)
    ensures
        is_primary_only(path) <==> is_manifest(path),
{
    let name = file_name(path);
    law_file_name(path, name);
    lemma_has(name, ".manifest"@);
    lemma_manifest_segment(path, name);
}

/// In every commit, however the stores reply and wherever it is cut short, a manifest is uploaded
/// only after every path that was written locally and bears no mark of publication.
pub proof fn law_manifests_go_last<S, O, P, E>(
    state: CacheView<S>,
    after: CacheView<S>,
    progress: CommitProgress<CommitView, Seq<char>, P, E>,
    replies: Seq<SyncReply<O, P, E>>,
    i: int,
    path: Seq<char>,
    name: Seq<char>,
)
    requires
        !state.closed,
        commit_begun(state, after, progress),
        0 <= i < uploaded(progress, after, replies).len(),
        is_manifest(uploaded(progress, after, replies)[i]),
        state.dirty.contains_key(path),
        is_last_segment(path, name),
        !bears_publication_mark(path, name),
    ensures
        uploaded(progress, after, replies).take(i).contains(path),
{
    let manifest = uploaded(progress, after, replies)[i];
    let last = file_name(manifest);
    law_file_name(manifest, last);
    lemma_manifest_segment(manifest, last);
    lemma_dotted(last);
    law_rank(manifest, last);
    law_rank(path, name);
    law_uploads_in_turn(state, after, progress, replies);
}

/// In every commit, however the stores reply and wherever it is cut short, metadata is uploaded
/// only after every path that was written locally and bears no mark at all.
pub proof fn law_payload_goes_first<S, O, P, E>(
    state: CacheView<S>,
    after: CacheView<S>,
    progress: CommitProgress<CommitView, Seq<char>, P, E>,
    replies: Seq<SyncReply<O, P, E>>,
    i: int,
    marked: Seq<char>,
    path: Seq<char>,
    name: Seq<char>,
)
    requires
        !state.closed,
        commit_begun(state, after, progress),
        0 <= i < uploaded(progress, after, replies).len(),
        is_last_segment(uploaded(progress, after, replies)[i], marked),
        bears_publication_mark(uploaded(progress, after, replies)[i], marked)
            || bears_metadata_mark(uploaded(progress, after, replies)[i], marked),
        state.dirty.contains_key(path),
        is_last_segment(path, name),
        !bears_publication_mark(path, name),
        !bears_metadata_mark(path, name),
    ensures
        uploaded(progress, after, replies).take(i).contains(path),
{
    law_rank(uploaded(progress, after, replies)[i], marked);
    law_rank(path, name);
    law_uploads_in_turn(state, after, progress, replies);
}

} // verus!
