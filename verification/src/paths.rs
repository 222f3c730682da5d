//! Where files live: paths as text, with `/` between their parts.

use vstd::prelude::*;

verus! {

/// `name` inside the directory `dir`. One `/` stands between the two; a
/// directory that is empty or ends in `/` takes none.
pub open spec fn joined_path(dir: Seq<char>, name: Seq<char>) -> Seq<char> {
    if dir.len() == 0 || dir.last() == '/' {
        dir + name
    } else {
        dir + seq!['/'] + name
    }
}

/// The path of `name` inside the directory `dir`.
pub fn join_path(dir: &str, name: &str) -> (r: String)
    ensures
        r@ == joined_path(dir@, name@),
{
    let n = dir.unicode_len();
    let mut r = String::from_str(dir);
    if n > 0 && dir.get_char(n - 1) != '/' {
        proof {
            reveal_strlit("/");
        }
        r.append("/");
        assert("/"@ =~= seq!['/']);
    }
    r.append(name);
    r
}

/// The directories of an installation.
#[derive(Debug)]
pub struct StorageLayout {
    /// Uploads in flight.
    pub temp_path: String,
    /// What is served to the public.
    pub public_path: String,
    /// Original files, each named by its digest and its extension.
    pub public_original_path: String,
    /// Thumbnails, each named by the digest of its original.
    pub public_thumbnail_path: String,
}

impl StorageLayout {
    /// Whether this is the layout below the directory `files`.
    pub open spec fn is_below(&self, files: Seq<char>) -> bool {
        &&& self.temp_path@ == joined_path(files, seq!['t', 'e', 'm', 'p'])
        &&& self.public_path@ == joined_path(files, seq!['p', 'u', 'b', 'l', 'i', 'c'])
        &&& self.public_original_path@ == joined_path(self.public_path@, seq!['o'])
        &&& self.public_thumbnail_path@ == joined_path(self.public_path@, seq!['t'])
    }

    /// The layout below the directory `files_path`.
    pub fn new(files_path: &str) -> (r: StorageLayout)
        ensures
            r.is_below(files_path@),
    {
        proof {
            reveal_strlit("temp");
            reveal_strlit("public");
            reveal_strlit("o");
            reveal_strlit("t");
            assert("temp"@ =~= seq!['t', 'e', 'm', 'p']);
            assert("public"@ =~= seq!['p', 'u', 'b', 'l', 'i', 'c']);
            assert("o"@ =~= seq!['o']);
            assert("t"@ =~= seq!['t']);
        }
        let temp_path = join_path(files_path, "temp");
        let public_path = join_path(files_path, "public");
        let public_original_path = join_path(public_path.as_str(), "o");
        let public_thumbnail_path = join_path(public_path.as_str(), "t");
        StorageLayout { temp_path, public_path, public_original_path, public_thumbnail_path }
    }
}

/// A setting that the environment may give and the configuration may give:
/// the environment's word counts where there is one.
pub fn choose_setting(from_environment: Option<String>, from_config: Option<String>) -> (r: Option<String>)
    ensures
        r == (if from_environment is Some {
            from_environment
        } else {
            from_config
        }),
{
    match from_environment {
        Some(value) => Some(value),
        None => from_config,
    }
}

} // verus!
