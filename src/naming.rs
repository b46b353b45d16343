use vstd::prelude::*;
use vstd::string::*;

verus! {

/// The public URL of one variant of a stored image.
pub open spec fn url_spec(
    base: Seq<char>,
    partition: Seq<char>,
    name: Seq<char>,
    hash: Seq<char>,
) -> Seq<char> {
    base + "/api/pictures/"@ + partition + "/"@ + name + "/"@ + hash
}

/// A base URL with one trailing '/' removed, if it has one.
pub open spec fn trimmed_base(base: Seq<char>) -> Seq<char> {
    if base.len() > 0 && base.last() == '/' {
        base.drop_last()
    } else {
        base
    }
}

/// `i` is the position of the first '.' in `s`.
pub open spec fn is_first_dot(s: Seq<char>, i: int) -> bool {
    &&& 0 <= i < s.len()
    &&& s[i] == '.'
    &&& forall|j: int| 0 <= j < i ==> s[j] != '.'
}

/// `i` is the position of the last '.' in `s`.
pub open spec fn is_last_dot(s: Seq<char>, i: int) -> bool {
    &&& 0 <= i < s.len()
    &&& s[i] == '.'
    &&& forall|j: int| i < j < s.len() ==> s[j] != '.'
}

/// A stored file name split at its first '.' into variant name and extension.
pub open spec fn picture_name_spec(s: Seq<char>) -> Option<(Seq<char>, Seq<char>)> {
    if s.contains('.') {
        let i = choose|i: int| is_first_dot(s, i);
        Some((s.take(i), s.skip(i + 1)))
    } else {
        None
    }
}

/// The extension of a file name as a path reads it: what follows the last
/// '.', where that '.' is not the first character.
pub open spec fn extension_spec(s: Seq<char>) -> Option<Seq<char>> {
    if exists|i: int| is_last_dot(s, i) {
        let i = choose|i: int| is_last_dot(s, i);
        if i > 0 {
            Some(s.skip(i + 1))
        } else {
            None
        }
    } else {
        None
    }
}

pub proof fn lemma_first_dot_unique(s: Seq<char>, i: int, j: int)
    requires
        is_first_dot(s, i),
        is_first_dot(s, j),
    ensures
        i == j,
{
}

pub proof fn lemma_last_dot_unique(s: Seq<char>, i: int, j: int)
    requires
        is_last_dot(s, i),
        is_last_dot(s, j),
    ensures
        i == j,
{
}

/// The name with no '.' in it, followed by '.' and anything, splits back
/// into that name and the rest.
pub proof fn lemma_picture_name_of_join(name: Seq<char>, ext: Seq<char>)
    requires
        !name.contains('.'),
    ensures
        picture_name_spec(name + seq!['.'] + ext) == Some((name, ext)),
{
    let s = name + seq!['.'] + ext;
    assert(is_first_dot(s, name.len() as int)) by {
        assert forall|j: int| 0 <= j < name.len() implies s[j] != '.' by {
            assert(s[j] == name[j]);
            if s[j] == '.' {
                assert(name.contains('.'));
            }
        }
    }
    assert(s.contains('.')) by {
        assert(s[name.len() as int] == '.');
    }
    let i = choose|i: int| is_first_dot(s, i);
    lemma_first_dot_unique(s, i, name.len() as int);
    assert(s.take(i) =~= name);
    assert(s.skip(i + 1) =~= ext);
}

/// Builds `{base_url}/api/pictures/{partition}/{name}/{hash}`.
pub fn generate_url(base_url: &str, partition: &str, name: &str, hash: &str) -> (r: String)
    ensures
        r@ == url_spec(base_url@, partition@, name@, hash@),
{
    let mut s = String::from_str(base_url);
    s.append("/api/pictures/");
    s.append(partition);
    s.append("/");
    s.append(name);
    s.append("/");
    s.append(hash);
    s
}

/// The base URL without its trailing '/', if it has one.
pub fn trim_base_url(base_url: &str) -> (r: &str)
    ensures
        r@ == trimmed_base(base_url@),
{
    let n = base_url.unicode_len();
    if n > 0 && base_url.get_char(n - 1) == '/' {
        base_url.substring_char(0, n - 1)
    } else {
        base_url
    }
}

/// Splits a stored file name at its first '.': `("xs", "png")` for `"xs.png"`,
/// `None` for a name without a '.'.
pub fn parse_picture_name(file_name: &str) -> (r: Option<(&str, &str)>)
    ensures
        match r {
            None => picture_name_spec(file_name@) is None,
            Some((name, ext)) => picture_name_spec(file_name@) == Some((name@, ext@)),
        },
{
    let n = file_name.unicode_len();
    let mut i: usize = 0;
    while i < n
        invariant
            n == file_name@.len(),
            i <= n,
            forall|j: int| 0 <= j < i ==> file_name@[j] != '.',
        decreases n - i,
    {
        if file_name.get_char(i) == '.' {
            let name = file_name.substring_char(0, i);
            let ext = file_name.substring_char(i + 1, n);
            proof {
                let s = file_name@;
                assert(is_first_dot(s, i as int));
                assert(s.contains('.'));
                let k = choose|k: int| is_first_dot(s, k);
                lemma_first_dot_unique(s, k, i as int);
            }
            return Some((name, ext));
        }
        i += 1;
    }
    None
}

/// The extension of a file name: what follows its last '.', unless that
/// '.' opens the name.
pub fn file_extension(file_name: &str) -> (r: Option<&str>)
    ensures
        match r {
            None => extension_spec(file_name@) is None,
            Some(ext) => extension_spec(file_name@) == Some(ext@),
        },
{
    let n = file_name.unicode_len();
    let mut i: usize = n;
    while i > 0
        invariant
            n == file_name@.len(),
            i <= n,
            forall|j: int| i <= j < n ==> file_name@[j] != '.',
        decreases i,
    {
        if file_name.get_char(i - 1) == '.' {
            proof {
                let s = file_name@;
                assert(is_last_dot(s, i - 1));
                let k = choose|k: int| is_last_dot(s, k);
                lemma_last_dot_unique(s, k, i - 1);
            }
            if i - 1 == 0 {
                return None;
            }
            return Some(file_name.substring_char(i, n));
        }
        i -= 1;
    }
    None
}

} // verus!

verus! {

/// Character-wise equality of two strings.
pub fn str_eq(a: &str, b: &str) -> (r: bool)
    ensures
        r == (a@ == b@),
{
    let n = a.unicode_len();
    if n != b.unicode_len() {
        return false;
    }
    let mut i: usize = 0;
    while i < n
        invariant
            n == a@.len(),
            n == b@.len(),
            i <= n,
            forall|j: int| 0 <= j < i ==> a@[j] == b@[j],
        decreases n - i,
    {
        if a.get_char(i) != b.get_char(i) {
            return false;
        }
        i += 1;
    }
    assert(a@ =~= b@);
    true
}

} // verus!
