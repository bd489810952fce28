//! Where the application keeps its files, and how a file name splits into
//! stem and extension. The application data directory itself is found by the
//! application and handed in as text; paths are joined with `/` as the
//! separator.
use vstd::prelude::*;
use crate::text::chars_of;

verus! {

/// `base` joined with `name` as `Path::join` joins them (with `/` as the
/// separator): a name that starts with `/` is absolute and replaces `base`;
/// otherwise no separator is added when `base` is empty or already ends
/// with `/`.
pub open spec fn joined(base: Seq<char>, name: Seq<char>) -> Seq<char> {
    if name.len() > 0 && name[0] == '/' {
        name
    } else if base.len() == 0 {
        name
    } else if base.last() == '/' {
        base + name
    } else {
        base + "/"@ + name
    }
}

pub fn join_path(base: &str, name: &str) -> (r: String)
    ensures
        r@ == joined(base@, name@),
{
    let n = chars_of(name);
    if n.len() > 0 && n[0] == '/' {
        return name.to_owned();
    }
    let b = chars_of(base);
    if b.len() == 0 {
        return name.to_owned();
    }
    let mut r = base.to_owned();
    if b[b.len() - 1] != '/' {
        r.append("/");
    }
    r.append(name);
    r
}

pub fn get_database_path(app_data_dir: &str) -> (r: String)
    ensures
        r@ == joined(app_data_dir@, "media_library.db"@),
{
    join_path(app_data_dir, "media_library.db")
}

pub fn get_image_cache_dir(app_data_dir: &str) -> (r: String)
    ensures
        r@ == joined(app_data_dir@, "image_cache"@),
{
    join_path(app_data_dir, "image_cache")
}

pub fn get_zip_cache_dir(app_data_dir: &str) -> (r: String)
    ensures
        r@ == joined(app_data_dir@, "zip_cache"@),
{
    join_path(app_data_dir, "zip_cache")
}

pub fn get_config_path(app_data_dir: &str) -> (r: String)
    ensures
        r@ == joined(app_data_dir@, "media_config.json"@),
{
    join_path(app_data_dir, "media_config.json")
}

pub fn download_jobs_path(app_data_dir: &str) -> (r: String)
    ensures
        r@ == joined(app_data_dir@, "download_jobs.json"@),
{
    join_path(app_data_dir, "download_jobs.json")
}

/// The downloads folder: `SlasshyVault` inside the user's download folder,
/// or inside `downloads` of the application data directory when the user
/// has none.
pub open spec fn downloads_dir(download_dir: Option<Seq<char>>, app_data_dir: Seq<char>) -> Seq<
    char,
> {
    let parent = match download_dir {
        Some(d) => d,
        None => joined(app_data_dir, "downloads"@),
    };
    joined(parent, "SlasshyVault"@)
}

pub fn default_downloads_dir(download_dir: Option<&str>, app_data_dir: &str) -> (r: String)
    ensures
        r@ == downloads_dir(
            match download_dir {
                Some(d) => Some(d@),
                None => None,
            },
            app_data_dir@,
        ),
{
    match download_dir {
        Some(d) => join_path(d, "SlasshyVault"),
        None => {
            let parent = join_path(app_data_dir, "downloads");
            join_path(parent.as_str(), "SlasshyVault")
        },
    }
}

/// Position of the last `.` of a file name, or -1.
pub open spec fn last_dot(name: Seq<char>) -> int
    decreases name.len(),
{
    if name.len() == 0 {
        -1
    } else if name.last() == '.' {
        name.len() - 1
    } else {
        last_dot(name.drop_last())
    }
}

/// Stem and extension of a single file name, as `Path::file_stem` and
/// `Path::extension` split it: at the last `.`, unless that dot is the first
/// character or the name is `..`, in which case there is no extension.
pub open spec fn name_parts(name: Seq<char>) -> (Seq<char>, Option<Seq<char>>) {
    let d = last_dot(name);
    if name == ".."@ || d <= 0 {
        (name, None)
    } else {
        (name.subrange(0, d), Some(name.subrange(d + 1, name.len() as int)))
    }
}

fn find_last_dot(v: &Vec<char>) -> (r: Option<usize>)
    ensures
        match r {
            Some(i) => i < v.len() && i as int == last_dot(v@),
            None => last_dot(v@) == -1,
        },
{
    let mut i = v.len();
    assert(v@.subrange(0, i as int) =~= v@);
    while i > 0
        invariant
            i <= v.len(),
            last_dot(v@) == last_dot(v@.subrange(0, i as int)),
        decreases i,
    {
        if v[i - 1] == '.' {
            return Some(i - 1);
        }
        assert(v@.subrange(0, i as int).drop_last() =~= v@.subrange(0, i - 1));
        i = i - 1;
    }
    None
}

/// Splits a file name into stem and optional extension.
pub fn split_file_name(name: &str) -> (r: (String, Option<String>))
    ensures
        r.0@ == name_parts(name@).0,
        match r.1 {
            Some(e) => name_parts(name@).1 == Some(e@),
            None => name_parts(name@).1 is None,
        },
{
    let v = chars_of(name);
    if crate::text::chars_equal(&v, "..") {
        return (name.to_owned(), None);
    }
    match find_last_dot(&v) {
        Some(d) => if d == 0 {
            (name.to_owned(), None)
        } else {
            (
                crate::text::string_of_range(&v, 0, d),
                Some(crate::text::string_of_range(&v, d + 1, v.len())),
            )
        },
        None => (name.to_owned(), None),
    }
}

} // verus!
