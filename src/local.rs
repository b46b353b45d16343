use vstd::prelude::*;
use vstd::string::*;
use crate::models::{
    find_partition, get_thumbnail_name, lemma_partition_index, has_partition, partition_index, thumbnail_spec, Config,
    LocalConfig, Output, PageList, Pagination, Scheme, Target, TargetFile,
};
use crate::naming::picture_name_spec;
use crate::pictures::{
    all_parse, pictures_describe, pictures_from_files, pictures_from_targets, stem_set,
    stems_distinct, target_names, target_names_distinct,
};

verus! {

/// What a look at the configured root path found.
#[derive(PartialEq, Eq, Structural, Debug, Clone, Copy)]
pub enum DirProbe {
    Missing,
    NotDirectory,
    Directory,
}

/// A stored-item count after one more image was stored.
pub open spec fn bumped(c: nat) -> nat {
    if c < usize::MAX {
        c + 1
    } else {
        c
    }
}

/// A stored-item count after one image was deleted.
pub open spec fn lowered(c: nat) -> nat {
    if c > 0 {
        (c - 1) as nat
    } else {
        0
    }
}

/// The name of the file that holds a target: `{name}.{ext}` for the upload
/// itself, `{name}.webp` for a recoded variant.
pub open spec fn file_name_spec(t: Target, original_ext: Seq<char>) -> Seq<char> {
    t.name@ + "."@ + match t.file {
        TargetFile::Original(_) => original_ext,
        TargetFile::Processed(_) => "webp"@,
    }
}

/// A path as its Debug form writes it: between double quotes, with quotes,
/// backslashes and control characters escaped.
pub uninterp spec fn debug_quoted(path: Seq<char>) -> Seq<char>;

/// Relies on the `Debug` impl of std::path::Path, through `format!`.
#[verifier::external_body]
fn quoted_path(path: &str) -> (r: String)
    ensures
        r@ == debug_quoted(path@),
{
    format!("{:?}", std::path::Path::new(path))
}

pub open spec fn missing_message(path: Seq<char>) -> Seq<char> {
    "The path of local 'dir' ["@ + debug_quoted(path) + "] does not exist."@
}

pub open spec fn not_dir_message(path: Seq<char>) -> Seq<char> {
    "The path of local 'dir' ["@ + debug_quoted(path) + "] must be a directory."@
}

/// The name of the file that holds `target` of an image uploaded with
/// extension `original_ext`.
pub fn target_file_name(target: &Target, original_ext: &str) -> (r: String)
    ensures
        r@ == file_name_spec(*target, original_ext@),
{
    let mut s = target.name.clone();
    s.append(".");
    match &target.file {
        TargetFile::Original(_) => s.append(original_ext),
        TargetFile::Processed(_) => s.append("webp"),
    }
    s
}

/// The remote object storage backend; it supports no operation.
pub struct Cos {}

/// Images kept in the local file system, under
/// `{root}/{partition}/{id}/{variant}.{ext}`, with a count of stored images
/// per configured partition.
pub struct Local {
    root_dir: String,
    config: Config,
    count: Vec<usize>,
}

impl Local {
    /// One count for each configured partition.
    pub closed spec fn wf(&self) -> bool {
        self.count@.len() == self.config.partitions@.len()
    }

    pub closed spec fn config_spec(&self) -> Config {
        self.config
    }

    pub closed spec fn root_spec(&self) -> Seq<char> {
        self.root_dir@
    }

    /// The number of images stored in partition `p`; `None` for a partition
    /// that is not configured.
    pub closed spec fn count_of(&self, p: Seq<char>) -> Option<nat> {
        if has_partition(self.config, p) {
            Some(self.count@[partition_index(self.config, p)] as nat)
        } else {
            None
        }
    }

    /// A backend rooted at `root_dir`, where `counts[i]` is the number of
    /// entries found in the directory of the `i`-th configured partition.
    pub fn new(root_dir: String, config: Config, counts: Vec<usize>) -> (r: Local)
        requires
            counts@.len() == config.partitions@.len(),
        ensures
            r.wf(),
            r.config_spec() == config,
            r.root_spec() == root_dir@,
            forall|p: Seq<char>|
                #[trigger] r.count_of(p) == if has_partition(config, p) {
                    Some(counts@[partition_index(config, p)] as nat)
                } else {
                    None
                },
    {
        Local { root_dir, config, count: counts }
    }

    /// A backend rooted at path `value`, which must be a directory.
    pub fn try_from_str(value: String, config: Config, probe: DirProbe, counts: Vec<usize>) -> (r:
        Result<Local, String>)
        requires
            probe == DirProbe::Directory ==> counts@.len() == config.partitions@.len(),
        ensures
            match probe {
                DirProbe::Missing => r matches Err(e) && e@ == missing_message(value@),
                DirProbe::NotDirectory => r matches Err(e) && e@ == not_dir_message(value@),
                DirProbe::Directory => r matches Ok(l) && l.wf() && l.config_spec() == config
                    && l.root_spec() == value@ && forall|p: Seq<char>|
                    #[trigger] l.count_of(p) == if has_partition(config, p) {
                        Some(counts@[partition_index(config, p)] as nat)
                    } else {
                        None
                    },
            },
    {
        match probe {
            DirProbe::Missing => {
                let mut e = String::from_str("The path of local 'dir' [");
                e.append(quoted_path(value.as_str()).as_str());
                e.append("] does not exist.");
                Err(e)
            },
            DirProbe::NotDirectory => {
                let mut e = String::from_str("The path of local 'dir' [");
                e.append(quoted_path(value.as_str()).as_str());
                e.append("] must be a directory.");
                Err(e)
            },
            DirProbe::Directory => Ok(Local::new(value, config, counts)),
        }
    }

    /// A backend rooted at the directory that `value` names.
    pub fn try_from_self(value: &LocalConfig, config: Config, probe: DirProbe, counts: Vec<usize>) -> (r:
        Result<Self, String>)
        requires
            probe == DirProbe::Directory ==> counts@.len() == config.partitions@.len(),
        ensures
            match probe {
                DirProbe::Missing => r matches Err(e) && e@ == missing_message(value.dir@),
                DirProbe::NotDirectory => r matches Err(e) && e@ == not_dir_message(value.dir@),
                DirProbe::Directory => r matches Ok(l) && l.wf() && l.config_spec() == config
                    && l.root_spec() == value.dir@ && forall|p: Seq<char>|
                    #[trigger] l.count_of(p) == if has_partition(config, p) {
                        Some(counts@[partition_index(config, p)] as nat)
                    } else {
                        None
                    },
            },
    {
        Local::try_from_str(value.dir.clone(), config, probe, counts)
    }

    /// The root directory.
    pub fn root_dir(&self) -> (r: &str)
        ensures
            r@ == self.root_spec(),
    {
        self.root_dir.as_str()
    }

    /// The configuration.
    pub fn config(&self) -> (r: &Config)
        ensures
            *r == self.config_spec(),
    {
        &self.config
    }

    /// Records that every target of `output` was written: builds the image's
    /// record and counts one more image in its partition. Fails, changing
    /// nothing, where the partition is not configured.
    pub fn record_store(&mut self, output: &Output) -> (r: Result<Scheme, String>)
        requires
            old(self).wf(),
        ensures
            final(self).wf(),
            final(self).config_spec() == old(self).config_spec(),
            final(self).root_spec() == old(self).root_spec(),
            match r {
                Err(e) => {
                    &&& !has_partition(old(self).config_spec(), output.partition@)
                    &&& e@ == "Not found"@
                    &&& *final(self) == *old(self)
                },
                Ok(s) => {
                    &&& has_partition(old(self).config_spec(), output.partition@)
                    &&& s.id@ == output.hash@
                    &&& s.thumbnail@ == thumbnail_spec(old(self).config_spec(), output.partition@)
                    &&& pictures_describe(
                        s.pictures@,
                        target_names(output.targets@),
                        old(self).config_spec().base_url@,
                        output.partition@,
                        output.hash@,
                    )
                    &&& target_names_distinct(output.targets@) ==> s.pictures@.len()
                        == output.targets@.len()
                    &&& final(self).count_of(output.partition@) == Some(
                        bumped(old(self).count_of(output.partition@)->Some_0),
                    )
                    &&& forall|q: Seq<char>|
                        q != output.partition@ ==> #[trigger] final(self).count_of(q) == old(
                            self,
                        ).count_of(q)
                },
            },
    {
        let pics = pictures_from_targets(
            self.config.base_url.as_str(),
            output.partition.as_str(),
            output.hash.as_str(),
            &output.targets,
        );
        match find_partition(&self.config, output.partition.as_str()) {
            None => Err(String::from_str("Not found")),
            Some(i) => {
                let thumbnail = get_thumbnail_name(&self.config, output.partition.as_str());
                let c = self.count[i];
                let new = if c < usize::MAX {
                    c + 1
                } else {
                    c
                };
                self.count.set(i, new);
                proof {
                    lemma_partition_index(self.config, output.partition@);
                    assert forall|q: Seq<char>| q != output.partition@ implies #[trigger] self.count_of(q)
                        == old(self).count_of(q) by {
                        if has_partition(self.config, q) {
                            lemma_partition_index(self.config, q);
                            let k = partition_index(self.config, q);
                            assert(k != i);
                            assert(self.count@[k] == old(self).count@[k]);
                        }
                    }
                }
                Ok(Scheme { id: output.hash.clone(), thumbnail, pictures: pics })
            },
        }
    }

    /// Records that the directory of one image of `partition` was removed:
    /// counts one image less there. Fails, changing nothing, where the
    /// partition is not configured.
    pub fn record_delete(&mut self, partition: &str) -> (r: Result<(), String>)
        requires
            old(self).wf(),
        ensures
            final(self).wf(),
            final(self).config_spec() == old(self).config_spec(),
            final(self).root_spec() == old(self).root_spec(),
            match r {
                Err(e) => {
                    &&& !has_partition(old(self).config_spec(), partition@)
                    &&& e@ == "Not found"@
                    &&& *final(self) == *old(self)
                },
                Ok(_) => {
                    &&& has_partition(old(self).config_spec(), partition@)
                    &&& final(self).count_of(partition@) == Some(
                        lowered(old(self).count_of(partition@)->Some_0),
                    )
                    &&& forall|q: Seq<char>|
                        q != partition@ ==> #[trigger] final(self).count_of(q) == old(
                            self,
                        ).count_of(q)
                },
            },
    {
        match find_partition(&self.config, partition) {
            None => Err(String::from_str("Not found")),
            Some(i) => {
                let c = self.count[i];
                let new = if c > 0 {
                    c - 1
                } else {
                    0
                };
                self.count.set(i, new);
                proof {
                    lemma_partition_index(self.config, partition@);
                    assert forall|q: Seq<char>| q != partition@ implies #[trigger] self.count_of(q)
                        == old(self).count_of(q) by {
                        if has_partition(self.config, q) {
                            lemma_partition_index(self.config, q);
                            let k = partition_index(self.config, q);
                            assert(k != i);
                            assert(self.count@[k] == old(self).count@[k]);
                        }
                    }
                }
                Ok(())
            },
        }
    }

    /// The record of image `id` of `partition`, rebuilt from the listing of
    /// its directory (`None` where the directory is missing). `None` as well
    /// where a file name lacks the `name.ext` shape.
    pub fn scheme_from_listing(&self, partition: &str, id: &str, listing: Option<&Vec<String>>) -> (r:
        Option<Scheme>)
        ensures
            match listing {
                None => r is None,
                Some(files) => {
                    &&& r is Some <==> all_parse(files@)
                    &&& r matches Some(s) ==> {
                        &&& s.id@ == id@
                        &&& s.thumbnail@ == thumbnail_spec(self.config_spec(), partition@)
                        &&& pictures_describe(
                            s.pictures@,
                            stem_set(files@),
                            self.config_spec().base_url@,
                            partition@,
                            id@,
                        )
                        &&& stems_distinct(files@) ==> s.pictures@.len() == files@.len()
                    }
                },
            },
    {
        match listing {
            None => None,
            Some(files) => match pictures_from_files(
                self.config.base_url.as_str(),
                partition,
                id,
                files,
            ) {
                Err(_) => None,
                Ok(pics) => Some(
                    Scheme {
                        id: String::from_str(id),
                        thumbnail: get_thumbnail_name(&self.config, partition),
                        pictures: pics,
                    },
                ),
            },
        }
    }

    /// The record of image `id` of `partition` for a listing page, rebuilt
    /// from the names of its files. Fails with
    /// `File name error: {name}` on the first name without a '.'.
    pub fn scheme_for_entry(&self, partition: &str, id: &str, files: &Vec<String>) -> (r: Result<
        Scheme,
        String,
    >)
        ensures
            match r {
                Err(e) => exists|i: int|
                    {
                        &&& 0 <= i < files@.len()
                        &&& e@ == "File name error: "@ + files@[i]@
                        &&& picture_name_spec(files@[i]@) is None
                        &&& forall|j: int|
                            0 <= j < i ==> picture_name_spec(#[trigger] files@[j]@) is Some
                    },
                Ok(s) => {
                    &&& all_parse(files@)
                    &&& s.id@ == id@
                    &&& s.thumbnail@ == thumbnail_spec(self.config_spec(), partition@)
                    &&& pictures_describe(
                        s.pictures@,
                        stem_set(files@),
                        self.config_spec().base_url@,
                        partition@,
                        id@,
                    )
                    &&& stems_distinct(files@) ==> s.pictures@.len() == files@.len()
                },
            },
            r is Ok <==> all_parse(files@),
    {
        match pictures_from_files(self.config.base_url.as_str(), partition, id, files) {
            Err(i) => {
                let mut e = String::from_str("File name error: ");
                e.append(files[i].as_str());
                Err(e)
            },
            Ok(pics) => Ok(
                Scheme {
                    id: String::from_str(id),
                    thumbnail: get_thumbnail_name(&self.config, partition),
                    pictures: pics,
                },
            ),
        }
    }

    /// Wraps the records of one page with its place and the partition's
    /// stored-image count.
    pub fn page_list(&self, current: usize, page_size: usize, partition: &str, list: Vec<Scheme>) -> (r:
        PageList<Scheme>)
        requires
            self.wf(),
            has_partition(self.config_spec(), partition@),
        ensures
            r.list == list,
            r.pagination.current == current,
            r.pagination.page_size == page_size,
            Some(r.pagination.total as nat) == self.count_of(partition@),
    {
        let i = match find_partition(&self.config, partition) {
            Some(i) => i,
            None => 0,
        };
        PageList { list, pagination: Pagination { current, page_size, total: self.count[i] } }
    }

    /// The stored-image count of `partition`, if it is configured.
    pub fn count(&self, partition: &str) -> (r: Option<usize>)
        requires
            self.wf(),
        ensures
            r matches Some(c) ==> self.count_of(partition@) == Some(c as nat),
            r is None ==> self.count_of(partition@) is None,
    {
        match find_partition(&self.config, partition) {
            Some(i) => Some(self.count[i]),
            None => None,
        }
    }
}

} // verus!
