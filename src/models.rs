use vstd::prelude::*;
use vstd::string::*;
use crate::naming::str_eq;

verus! {

/// Settings of one partition: which variant is advertised as the thumbnail,
/// and the names of its configured variants, in order.
pub struct PartitionConfig {
    pub name: String,
    pub thumbnail: Option<String>,
    pub schemes: Vec<String>,
}

/// The service configuration handed to the backend at construction.
pub struct Config {
    pub base_url: String,
    pub partitions: Vec<PartitionConfig>,
}

/// Where the local backend keeps its files.
pub struct LocalConfig {
    pub dir: String,
}

/// The format an image was uploaded in.
pub struct SourceFormat {
    pub ext: String,
    pub mime_type: String,
}

/// The bytes of one variant: the upload itself, or a variant recoded as webp.
pub enum TargetFile {
    Original(Vec<u8>),
    Processed(Vec<u8>),
}

/// One variant of a processed image.
pub struct Target {
    pub name: String,
    pub file: TargetFile,
}

/// A processed image, ready to be stored.
pub struct Output {
    pub partition: String,
    pub hash: String,
    pub original_format: SourceFormat,
    pub targets: Vec<Target>,
}

/// The record of one stored image: its id, the variant to show by default,
/// and the URL of each variant (variant name first, names unique).
pub struct Scheme {
    pub id: String,
    pub thumbnail: String,
    pub pictures: Vec<(String, String)>,
}

pub struct Pagination {
    pub current: usize,
    pub page_size: usize,
    pub total: usize,
}

/// One page of a listing.
pub struct PageList<T> {
    pub list: Vec<T>,
    pub pagination: Pagination,
}

/// `i` is the first partition of `c` named `p`.
pub open spec fn is_first_partition(c: Config, p: Seq<char>, i: int) -> bool {
    &&& 0 <= i < c.partitions@.len()
    &&& c.partitions@[i].name@ == p
    &&& forall|j: int| 0 <= j < i ==> c.partitions@[j].name@ != p
}

pub open spec fn has_partition(c: Config, p: Seq<char>) -> bool {
    exists|i: int| 0 <= i < c.partitions@.len() && c.partitions@[i].name@ == p
}

/// The index of the settings that apply to partition `p`.
pub open spec fn partition_index(c: Config, p: Seq<char>) -> int {
    choose|i: int| is_first_partition(c, p, i)
}

/// The variant advertised as thumbnail in partition `p`: the configured one,
/// else the first configured variant, else "origin"; "" for an unknown partition.
pub open spec fn thumbnail_spec(c: Config, p: Seq<char>) -> Seq<char> {
    if has_partition(c, p) {
        let pc = c.partitions@[partition_index(c, p)];
        match pc.thumbnail {
            Some(t) => t@,
            None => if pc.schemes@.len() > 0 {
                pc.schemes@[0]@
            } else {
                "origin"@
            },
        }
    } else {
        Seq::empty()
    }
}

proof fn lemma_first_partition_unique(c: Config, p: Seq<char>, i: int, j: int)
    requires
        is_first_partition(c, p, i),
        is_first_partition(c, p, j),
    ensures
        i == j,
{
}

proof fn lemma_first_partition_below(c: Config, p: Seq<char>, k: int)
    requires
        0 <= k <= c.partitions@.len(),
        exists|j: int| 0 <= j < k && c.partitions@[j].name@ == p,
    ensures
        exists|i: int| is_first_partition(c, p, i),
    decreases k,
{
    if exists|j: int| 0 <= j < k - 1 && c.partitions@[j].name@ == p {
        lemma_first_partition_below(c, p, k - 1);
    } else {
        assert(is_first_partition(c, p, k - 1));
    }
}

/// A configured partition has settings that come first among those of its name.
pub proof fn lemma_partition_index(c: Config, p: Seq<char>)
    requires
        has_partition(c, p),
    ensures
        is_first_partition(c, p, partition_index(c, p)),
{
    lemma_first_partition_below(c, p, c.partitions@.len() as int);
}

/// The position of the settings of partition `p` in `c`, if `p` is configured.
pub fn find_partition(c: &Config, p: &str) -> (r: Option<usize>)
    ensures
        r is Some <==> has_partition(*c, p@),
        r matches Some(i) ==> i == partition_index(*c, p@) && i < c.partitions@.len(),
{
    let mut i: usize = 0;
    while i < c.partitions.len()
        invariant
            i <= c.partitions@.len(),
            forall|j: int| 0 <= j < i ==> c.partitions@[j].name@ != p@,
        decreases c.partitions@.len() - i,
    {
        if str_eq(c.partitions[i].name.as_str(), p) {
            proof {
                assert(is_first_partition(*c, p@, i as int));
                let k = partition_index(*c, p@);
                lemma_first_partition_unique(*c, p@, k, i as int);
            }
            return Some(i);
        }
        i += 1;
    }
    None
}

/// The variant name to show by default for images of partition `partition`.
pub fn get_thumbnail_name(config: &Config, partition: &str) -> (r: String)
    ensures
        r@ == thumbnail_spec(*config, partition@),
{
    match find_partition(config, partition) {
        Some(i) => {
            let pc = &config.partitions[i];
            match &pc.thumbnail {
                Some(t) => t.clone(),
                None => if pc.schemes.len() > 0 {
                    pc.schemes[0].clone()
                } else {
                    String::from_str("origin")
                },
            }
        },
        None => String::new(),
    }
}

} // verus!
