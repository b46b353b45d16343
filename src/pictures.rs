use vstd::prelude::*;
use crate::models::Target;
use crate::naming::{
    generate_url, parse_picture_name, picture_name_spec, trim_base_url, trimmed_base, url_spec,
};

verus! {

/// Some entry of `p` is for variant `k`.
pub open spec fn has_picture(p: Seq<(String, String)>, k: Seq<char>) -> bool {
    exists|i: int| 0 <= i < p.len() && p[i].0@ == k
}

/// No variant name occurs twice in `p`.
pub open spec fn names_unique(p: Seq<(String, String)>) -> bool {
    forall|i: int, j: int| 0 <= i < j < p.len() ==> p[i].0@ != p[j].0@
}

/// Each entry of `p` holds the public URL of its variant.
pub open spec fn urls_follow(
    p: Seq<(String, String)>,
    base: Seq<char>,
    partition: Seq<char>,
    hash: Seq<char>,
) -> bool {
    forall|i: int|
        0 <= i < p.len() ==> #[trigger] p[i].1@ == url_spec(
            trimmed_base(base),
            partition,
            p[i].0@,
            hash,
        )
}

/// `p` maps exactly the variant names `names`, each to its public URL.
pub open spec fn pictures_describe(
    p: Seq<(String, String)>,
    names: Set<Seq<char>>,
    base: Seq<char>,
    partition: Seq<char>,
    hash: Seq<char>,
) -> bool {
    &&& names_unique(p)
    &&& urls_follow(p, base, partition, hash)
    &&& forall|k: Seq<char>| has_picture(p, k) <==> names.contains(k)
}

/// The variant name that a stored file name carries.
pub open spec fn stem_spec(s: Seq<char>) -> Seq<char> {
    match picture_name_spec(s) {
        Some((name, _)) => name,
        None => s,
    }
}

/// Every file name has the `name.ext` shape.
pub open spec fn all_parse(files: Seq<String>) -> bool {
    forall|i: int| 0 <= i < files.len() ==> picture_name_spec(#[trigger] files[i]@) is Some
}

/// The variant names carried by a directory listing.
pub open spec fn stem_set(files: Seq<String>) -> Set<Seq<char>> {
    Set::new(|k: Seq<char>| exists|i: int| 0 <= i < files.len() && stem_spec(files[i]@) == k)
}

/// No two file names of the listing carry the same variant name.
pub open spec fn stems_distinct(files: Seq<String>) -> bool {
    forall|i: int, j: int|
        0 <= i < j < files.len() ==> stem_spec(files[i]@) != stem_spec(files[j]@)
}

/// The variant names of a list of targets.
pub open spec fn target_names(targets: Seq<Target>) -> Set<Seq<char>> {
    Set::new(|k: Seq<char>| exists|i: int| 0 <= i < targets.len() && targets[i].name@ == k)
}

/// No two targets share a variant name.
pub open spec fn target_names_distinct(targets: Seq<Target>) -> bool {
    forall|i: int, j: int| 0 <= i < j < targets.len() ==> targets[i].name@ != targets[j].name@
}

/// Sets the URL of variant `name`, replacing an earlier entry for it.
fn insert_picture(
    pics: &mut Vec<(String, String)>,
    name: String,
    url: String,
    Ghost(base): Ghost<Seq<char>>,
    Ghost(partition): Ghost<Seq<char>>,
    Ghost(hash): Ghost<Seq<char>>,
)
    requires
        names_unique(old(pics)@),
        urls_follow(old(pics)@, base, partition, hash),
        url@ == url_spec(trimmed_base(base), partition, name@, hash),
    ensures
        names_unique(final(pics)@),
        urls_follow(final(pics)@, base, partition, hash),
        forall|k: Seq<char>|
            has_picture(final(pics)@, k) <==> (has_picture(old(pics)@, k) || k == name@),
        !has_picture(old(pics)@, name@) ==> final(pics)@.len() == old(pics)@.len() + 1,
{
    let ghost before = pics@;
    let mut i: usize = 0;
    while i < pics.len()
        invariant
            pics@ == before,
            before == old(pics)@,
            i <= pics@.len(),
            names_unique(before),
            urls_follow(before, base, partition, hash),
            url@ == url_spec(trimmed_base(base), partition, name@, hash),
            forall|j: int| 0 <= j < i ==> pics@[j].0@ != name@,
        decreases pics@.len() - i,
    {
        if pics[i].0 == name {
            let ghost idx = i as int;
            let ghost nv = name@;
            let ghost uv = url@;
            assert(before[idx].0@ == nv);
            pics.set(i, (name, url));
            proof {
                assert(pics@[idx].0@ == nv && pics@[idx].1@ == uv);
                assert(has_picture(before, nv));
                assert forall|j: int| 0 <= j < pics@.len() implies #[trigger] pics@[j].0@
                    == before[j].0@ by {
                    if j != idx {
                        assert(pics@[j] == before[j]);
                    }
                }
                assert(names_unique(pics@)) by {
                    assert forall|a: int, b: int| 0 <= a < b < pics@.len() implies pics@[a].0@
                        != pics@[b].0@ by {
                        assert(pics@[a].0@ == before[a].0@);
                        assert(pics@[b].0@ == before[b].0@);
                    }
                }
                assert forall|k: Seq<char>|
                    has_picture(pics@, k) <==> (has_picture(before, k) || k == nv) by {
                    if has_picture(before, k) {
                        let j = choose|j: int| 0 <= j < before.len() && before[j].0@ == k;
                        assert(pics@[j].0@ == k);
                    }
                    if k == nv {
                        assert(pics@[idx].0@ == k);
                    }
                    if has_picture(pics@, k) {
                        let j = choose|j: int| 0 <= j < pics@.len() && pics@[j].0@ == k;
                        assert(before[j].0@ == k);
                    }
                }
                assert(urls_follow(pics@, base, partition, hash)) by {
                    assert forall|j: int| 0 <= j < pics@.len() implies #[trigger] pics@[j].1@
                        == url_spec(trimmed_base(base), partition, pics@[j].0@, hash) by {
                        if j != idx {
                            assert(pics@[j] == before[j]);
                        }
                    }
                }
            }
            return;
        }
        i += 1;
    }
    pics.push((name, url));
    proof {
        assert forall|k: Seq<char>|
            has_picture(pics@, k) <==> (has_picture(before, k) || k == name@) by {
            if has_picture(before, k) {
                let j = choose|j: int| 0 <= j < before.len() && before[j].0@ == k;
                assert(pics@[j].0@ == k);
            }
            if k == name@ {
                assert(pics@[before.len() as int].0@ == k);
            }
            if has_picture(pics@, k) {
                let j = choose|j: int| 0 <= j < pics@.len() && pics@[j].0@ == k;
                if j < before.len() {
                    assert(before[j].0@ == k);
                }
            }
        }
        assert(urls_follow(pics@, base, partition, hash)) by {
            assert forall|j: int| 0 <= j < pics@.len() implies #[trigger] pics@[j].1@ == url_spec(
                trimmed_base(base),
                partition,
                pics@[j].0@,
                hash,
            ) by {
                if j < before.len() {
                    assert(pics@[j] == before[j]);
                }
            }
        }
        assert(names_unique(pics@)) by {
            assert forall|a: int, b: int| 0 <= a < b < pics@.len() implies pics@[a].0@
                != pics@[b].0@ by {
                if b < before.len() {
                    assert(pics@[a] == before[a]);
                    assert(pics@[b] == before[b]);
                } else {
                    assert(pics@[a] == before[a]);
                }
            }
        }
        if !has_picture(before, name@) {
            assert(pics@.len() == before.len() + 1);
        }
    }
}

/// The URL map of a stored image, rebuilt from the names of its files.
/// Fails with the index of the first file name without a '.'.
pub fn pictures_from_files(
    base_url: &str,
    partition: &str,
    hash: &str,
    files: &Vec<String>,
) -> (r: Result<Vec<(String, String)>, usize>)
    ensures
        match r {
            Ok(p) => {
                &&& all_parse(files@)
                &&& pictures_describe(p@, stem_set(files@), base_url@, partition@, hash@)
                &&& stems_distinct(files@) ==> p@.len() == files@.len()
            },
            Err(i) => {
                &&& i < files@.len()
                &&& picture_name_spec(files@[i as int]@) is None
                &&& forall|j: int| 0 <= j < i ==> picture_name_spec(#[trigger] files@[j]@) is Some
            },
        },
{
    let base = trim_base_url(base_url);
    let mut pics: Vec<(String, String)> = Vec::new();
    let mut i: usize = 0;
    while i < files.len()
        invariant
            i <= files@.len(),
            base@ == trimmed_base(base_url@),
            forall|j: int| 0 <= j < i ==> picture_name_spec(#[trigger] files@[j]@) is Some,
            names_unique(pics@),
            urls_follow(pics@, base_url@, partition@, hash@),
            forall|k: Seq<char>|
                has_picture(pics@, k) <==> exists|j: int| 0 <= j < i && stem_spec(files@[j]@) == k,
            stems_distinct(files@) ==> pics@.len() == i,
        decreases files@.len() - i,
    {
        match parse_picture_name(files[i].as_str()) {
            None => {
                return Err(i);
            },
            Some((name, _)) => {
                let url = generate_url(base, partition, name, hash);
                let ghost before = pics@;
                assert(stem_spec(files@[i as int]@) == name@);
                proof {
                    if stems_distinct(files@) {
                        assert(!has_picture(before, name@)) by {
                            if has_picture(before, name@) {
                                let j = choose|j: int|
                                    0 <= j < i && stem_spec(files@[j]@) == name@;
                                assert(stem_spec(files@[j]@) != stem_spec(files@[i as int]@));
                            }
                        }
                    }
                }
                insert_picture(
                    &mut pics,
                    String::from_str(name),
                    url,
                    Ghost(base_url@),
                    Ghost(partition@),
                    Ghost(hash@),
                );
                assert forall|k: Seq<char>|
                    has_picture(pics@, k) <==> exists|j: int|
                        0 <= j < i + 1 && stem_spec(files@[j]@) == k by {
                    if k == name@ {
                        assert(stem_spec(files@[i as int]@) == k);
                    }
                }
            },
        }
        i += 1;
    }
    assert forall|k: Seq<char>| has_picture(pics@, k) <==> stem_set(files@).contains(k) by {}
    Ok(pics)
}

/// The URL map of an image that is being stored with `targets`.
pub fn pictures_from_targets(
    base_url: &str,
    partition: &str,
    hash: &str,
    targets: &Vec<Target>,
) -> (r: Vec<(String, String)>)
    ensures
        pictures_describe(r@, target_names(targets@), base_url@, partition@, hash@),
        target_names_distinct(targets@) ==> r@.len() == targets@.len(),
{
    let base = trim_base_url(base_url);
    let mut pics: Vec<(String, String)> = Vec::new();
    let mut i: usize = 0;
    while i < targets.len()
        invariant
            i <= targets@.len(),
            base@ == trimmed_base(base_url@),
            names_unique(pics@),
            urls_follow(pics@, base_url@, partition@, hash@),
            forall|k: Seq<char>|
                has_picture(pics@, k) <==> exists|j: int| 0 <= j < i && targets@[j].name@ == k,
            target_names_distinct(targets@) ==> pics@.len() == i,
        decreases targets@.len() - i,
    {
        let name = &targets[i].name;
        let url = generate_url(base, partition, name.as_str(), hash);
        let ghost before = pics@;
        proof {
            if target_names_distinct(targets@) {
                assert(!has_picture(before, name@)) by {
                    if has_picture(before, name@) {
                        let j = choose|j: int| 0 <= j < i && targets@[j].name@ == name@;
                        assert(targets@[j].name@ != targets@[i as int].name@);
                    }
                }
            }
        }
        insert_picture(&mut pics, name.clone(), url, Ghost(base_url@), Ghost(partition@), Ghost(hash@));
        assert forall|k: Seq<char>|
            has_picture(pics@, k) <==> exists|j: int| 0 <= j < i + 1 && targets@[j].name@ == k by {
            if k == name@ {
                assert(targets@[i as int].name@ == k);
            }
        }
        i += 1;
    }
    assert forall|k: Seq<char>| has_picture(pics@, k) <==> target_names(targets@).contains(k) by {}
    pics
}

} // verus!
