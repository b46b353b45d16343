//! Properties that relate several operations of the local backend, stated over
//! the same spec functions that the operations' contracts use.
use vstd::prelude::*;
use crate::local::{bumped, file_name_spec};
use crate::models::{Target, TargetFile};
use crate::naming::{extension_spec, is_last_dot, lemma_last_dot_unique, lemma_picture_name_of_join};
use crate::picture::{ascii_lower, mime_of_file};
use crate::pictures::{all_parse, stem_set, stem_spec, stems_distinct, target_names, target_names_distinct};

verus! {

/// The names of the files that storing `targets` writes, in target order.
pub open spec fn written_names(targets: Seq<Target>, ext: Seq<char>) -> Seq<Seq<char>> {
    Seq::new(targets.len(), |i: int| file_name_spec(targets[i], ext))
}

/// The file names in an image's directory after `targets` were stored into
/// it, where it held `before`.
pub open spec fn stored_names(before: Set<Seq<char>>, targets: Seq<Target>, ext: Seq<char>) -> Set<
    Seq<char>,
> {
    before.union(written_names(targets, ext).to_set())
}

/// The listing of image `id` among the stored images `images` (id to the
/// names in its directory); `None` where it has no directory.
pub open spec fn listing_of(images: Map<Seq<char>, Seq<String>>, id: Seq<char>) -> Option<
    Seq<String>,
> {
    if images.contains_key(id) {
        Some(images[id])
    } else {
        None
    }
}

/// A target name without '.' is what its file name splits back into.
proof fn lemma_stem_of_written(t: Target, ext: Seq<char>)
    requires
        !t.name@.contains('.'),
    ensures
        crate::naming::picture_name_spec(file_name_spec(t, ext)) is Some,
        stem_spec(file_name_spec(t, ext)) == t.name@,
{
    reveal_strlit(".");
    let rest = match t.file {
        TargetFile::Original(_) => ext,
        TargetFile::Processed(_) => "webp"@,
    };
    assert("."@ == seq!['.']);
    assert(file_name_spec(t, ext) == t.name@ + seq!['.'] + rest) by {
        assert(t.name@ + "."@ + rest =~= t.name@ + seq!['.'] + rest);
    }
    lemma_picture_name_of_join(t.name@, rest);
}

/// File name `f` is that of one of the targets.
spec fn is_written(f: Seq<char>, targets: Seq<Target>, ext: Seq<char>) -> bool {
    exists|j: int| 0 <= j < targets.len() && f == file_name_spec(targets[j], ext)
}

/// The file of target `t` is in the listing.
spec fn is_listed(files: Seq<String>, t: Target, ext: Seq<char>) -> bool {
    exists|i: int| 0 <= i < files.len() && files[i]@ == file_name_spec(t, ext)
}

#[verifier::rlimit(50)]
proof fn lemma_listing_of_written(targets: Seq<Target>, ext: Seq<char>, files: Seq<String>)
    requires
        target_names_distinct(targets),
        forall|i: int| 0 <= i < targets.len() ==> !(#[trigger] targets[i].name@).contains('.'),
        files.len() == targets.len(),
        forall|a: int, b: int| 0 <= a < b < files.len() ==> files[a]@ != files[b]@,
        forall|i: int| 0 <= i < files.len() ==> is_written(#[trigger] files[i]@, targets, ext),
        forall|j: int| 0 <= j < targets.len() ==> is_listed(files, #[trigger] targets[j], ext),
    ensures
        all_parse(files),
        stem_set(files) == target_names(targets),
        stems_distinct(files),
        files.len() == targets.len(),
{
    assert forall|i: int| 0 <= i < files.len() implies crate::naming::picture_name_spec(
        #[trigger] files[i]@,
    ) is Some by {
        let j = choose|j: int|
            0 <= j < targets.len() && files[i]@ == file_name_spec(targets[j], ext);
        lemma_stem_of_written(targets[j], ext);
    }
    assert forall|k: Seq<char>| stem_set(files).contains(k) <==> target_names(targets).contains(
        k,
    ) by {
        if stem_set(files).contains(k) {
            let i = choose|i: int| 0 <= i < files.len() && stem_spec(files[i]@) == k;
            let j = choose|j: int|
                0 <= j < targets.len() && files[i]@ == file_name_spec(targets[j], ext);
            lemma_stem_of_written(targets[j], ext);
        }
        if target_names(targets).contains(k) {
            let j = choose|j: int| 0 <= j < targets.len() && targets[j].name@ == k;
            let i = choose|i: int| 0 <= i < files.len() && files[i]@ == file_name_spec(targets[j], ext);
            lemma_stem_of_written(targets[j], ext);
        }
    }
    assert(stem_set(files) =~= target_names(targets));
    assert forall|a: int, b: int| 0 <= a < b < files.len() implies stem_spec(files[a]@)
        != stem_spec(files[b]@) by {
        let ja = choose|j: int|
            0 <= j < targets.len() && files[a]@ == file_name_spec(targets[j], ext);
        let jb = choose|j: int|
            0 <= j < targets.len() && files[b]@ == file_name_spec(targets[j], ext);
        lemma_stem_of_written(targets[ja], ext);
        lemma_stem_of_written(targets[jb], ext);
        if ja != jb {
            if ja < jb {
                assert(targets[ja].name@ != targets[jb].name@);
            } else {
                assert(targets[jb].name@ != targets[ja].name@);
            }
        }
    }
}

/// The names of a directory listing.
pub open spec fn listing_names(files: Seq<String>) -> Seq<Seq<char>> {
    files.map_values(|f: String| f@)
}

/// Targets with distinct names that hold no '.' are written to distinct files.
proof fn lemma_written_no_duplicates(targets: Seq<Target>, ext: Seq<char>)
    requires
        target_names_distinct(targets),
        forall|i: int| 0 <= i < targets.len() ==> !(#[trigger] targets[i].name@).contains('.'),
    ensures
        written_names(targets, ext).no_duplicates(),
{
    let w = written_names(targets, ext);
    assert forall|a: int, b: int| 0 <= a < w.len() && 0 <= b < w.len() && a != b implies w[a]
        != w[b] by {
        lemma_stem_of_written(targets[a], ext);
        lemma_stem_of_written(targets[b], ext);
        if a < b {
            assert(targets[a].name@ != targets[b].name@);
        } else {
            assert(targets[b].name@ != targets[a].name@);
        }
    }
}

/// Storing targets with distinct names that hold no '.' into a fresh
/// directory, then listing it (in any order, each file once) yields one
/// variant per target: the listing parses, its variant names are exactly the
/// target names, and no two files carry the same variant. The record rebuilt
/// from it therefore maps the same names to the same URLs as the record that
/// storing returned, with one entry per target.
pub proof fn lemma_store_then_listing(targets: Seq<Target>, ext: Seq<char>, files: Seq<String>)
    requires
        target_names_distinct(targets),
        forall|i: int| 0 <= i < targets.len() ==> !(#[trigger] targets[i].name@).contains('.'),
        listing_names(files).no_duplicates(),
        listing_names(files).to_set() == written_names(targets, ext).to_set(),
    ensures
        all_parse(files),
        stem_set(files) == target_names(targets),
        stems_distinct(files),
        files.len() == targets.len(),
{
    let l = listing_names(files);
    let w = written_names(targets, ext);
    lemma_written_no_duplicates(targets, ext);
    l.unique_seq_to_set();
    w.unique_seq_to_set();
    assert forall|a: int, b: int| 0 <= a < b < files.len() implies files[a]@ != files[b]@ by {
        assert(l[a] == files[a]@ && l[b] == files[b]@);
    }
    assert forall|i: int| 0 <= i < files.len() implies is_written(#[trigger] files[i]@, targets, ext) by {
        assert(l[i] == files[i]@);
        assert(l.to_set().contains(l[i]));
        assert(w.to_set().contains(l[i]));
        let j = choose|j: int| 0 <= j < w.len() && w[j] == l[i];
        assert(files[i]@ == file_name_spec(targets[j], ext));
    }
    assert forall|j: int| 0 <= j < targets.len() implies is_listed(files, #[trigger] targets[j], ext) by {
        assert(w[j] == file_name_spec(targets[j], ext));
        assert(w.to_set().contains(w[j]));
        assert(l.to_set().contains(w[j]));
        let i = choose|i: int| 0 <= i < l.len() && l[i] == w[j];
        assert(files[i]@ == file_name_spec(targets[j], ext));
    }
    lemma_listing_of_written(targets, ext, files);
}

/// Storing the same targets into an image's directory a second time leaves
/// the same files there; into an empty directory, one file per target (names
/// distinct, without '.'). The stored-image count still moves twice: by two,
/// short of the largest count.
pub proof fn lemma_store_twice(
    before: Set<Seq<char>>,
    targets: Seq<Target>,
    ext: Seq<char>,
    count: nat,
)
    ensures
        stored_names(stored_names(before, targets, ext), targets, ext) == stored_names(
            before,
            targets,
            ext,
        ),
        (target_names_distinct(targets) && forall|i: int|
            0 <= i < targets.len() ==> !(#[trigger] targets[i].name@).contains('.'))
            ==> stored_names(Set::empty(), targets, ext).len() == targets.len(),
        count + 2 <= usize::MAX ==> bumped(bumped(count)) == count + 2,
{
    let w = written_names(targets, ext);
    assert(stored_names(stored_names(before, targets, ext), targets, ext) =~= stored_names(
        before,
        targets,
        ext,
    ));
    if target_names_distinct(targets) && forall|i: int|
        0 <= i < targets.len() ==> !(#[trigger] targets[i].name@).contains('.') {
        lemma_written_no_duplicates(targets, ext);
        w.unique_seq_to_set();
        assert(Set::<Seq<char>>::empty().union(w.to_set()) =~= w.to_set());
    }
}

/// Once the directory of image `id` is removed, there is no listing for it:
/// the record cannot be rebuilt and no variant of it can be found.
pub proof fn lemma_deleted_image_is_gone(
    images: Map<Seq<char>, Seq<String>>,
    id: Seq<char>,
    variant: Seq<char>,
)
    ensures
        listing_of(images.remove(id), id) is None,
        forall|other: Seq<char>|
            other != id ==> #[trigger] listing_of(images.remove(id), other) == listing_of(
                images,
                other,
            ),
{
}

/// A recoded variant with a non-empty name is stored with extension "webp"
/// and served as "image/webp"; an upload is stored with its own extension,
/// where that holds no '.', and one uploaded as "png" is served as "image/png".
pub proof fn lemma_stored_extension(t: Target, ext: Seq<char>)
    requires
        t.name@.len() > 0,
        !ext.contains('.'),
    ensures
        t.file is Processed ==> extension_spec(file_name_spec(t, ext)) == Some("webp"@),
        t.file is Original ==> extension_spec(file_name_spec(t, ext)) == Some(ext),
        t.file is Processed ==> mime_of_file(file_name_spec(t, ext)) == Some("image/webp"@),
        t.file is Original && ext == "png"@ ==> mime_of_file(file_name_spec(t, ext)) == Some(
            "image/png"@,
        ),
{
    reveal_strlit("png");
    reveal_strlit(".");
    reveal_strlit("webp");
    let rest = match t.file {
        TargetFile::Original(_) => ext,
        TargetFile::Processed(_) => "webp"@,
    };
    let s = file_name_spec(t, ext);
    let n = t.name@.len() as int;
    assert(s =~= t.name@ + seq!['.'] + rest);
    assert(!rest.contains('.')) by {
        if rest.contains('.') {
            let j = choose|j: int| 0 <= j < rest.len() && rest[j] == '.';
            if t.file is Processed {
                assert(rest[j] != '.');
            }
        }
    }
    assert(is_last_dot(s, n)) by {
        assert forall|j: int| n < j < s.len() implies s[j] != '.' by {
            assert(s[j] == rest[j - n - 1]);
        }
    }
    let i = choose|i: int| is_last_dot(s, i);
    lemma_last_dot_unique(s, i, n);
    assert(s.skip(n + 1) =~= rest);
    if t.file is Processed {
        assert(ascii_lower(rest) =~= seq!['w', 'e', 'b', 'p']);
    }
    if t.file is Original && ext == "png"@ {
        assert(ascii_lower(rest) =~= seq!['p', 'n', 'g']);
    }
}

} // verus!
