use vstd::prelude::*;

use crate::naming::views;
use crate::paths::{
    extension_of, file_name_of, file_stem_of, in_trash, join, join_path, lemma_below_trash,
    path_extension, path_file_name, path_file_stem,
};
use crate::text::{
    chars_equal, chars_of, decimal, occurs_at, push_all, push_decimal, push_str, string_from_chars,
};

verus! {

/// The trash folder: `$XDG_DATA_HOME/Trash`, else `$HOME/.local/share/Trash`,
/// given the two variables (absent when unset or not Unicode).
pub open spec fn trash_base_spec(xdg_data_home: Option<Seq<char>>, home: Option<Seq<char>>) -> Option<
    Seq<char>,
> {
    match xdg_data_home {
        Some(d) => Some(join_path(d, "Trash"@)),
        None => match home {
            Some(h) => Some(join_path(h, ".local/share/Trash"@)),
            None => None,
        },
    }
}

pub open spec fn opt_chars(o: Option<String>) -> Option<Seq<char>> {
    match o {
        Some(s) => Some(s@),
        None => None,
    }
}

/// An absolute trash folder lies in the trash, and so does everything
/// below it.
pub proof fn lemma_trash_folder_in_trash(
    xdg_data_home: Option<Seq<char>>,
    home: Option<Seq<char>>,
    rel: Seq<char>,
)
    requires
        trash_base_spec(xdg_data_home, home) matches Some(b) && b.len() > 0 && b[0] == '/',
        !(rel.len() > 0 && rel[0] == '/'),
    ensures
        in_trash(trash_base_spec(xdg_data_home, home).unwrap()),
        in_trash(join_path(trash_base_spec(xdg_data_home, home).unwrap(), rel)),
{
    let b = trash_base_spec(xdg_data_home, home).unwrap();
    reveal_strlit("Trash");
    reveal_strlit(".local/share/Trash");
    reveal_strlit("/Trash");
    reveal_strlit("/.local/share/Trash");
    match xdg_data_home {
        Some(d) => {
            assert(d.len() > 0);
            assert(b.subrange(b.len() - 6, b.len() as int) =~= "/Trash"@);
            assert("/Trash"@.is_suffix_of(b));
        },
        None => {
            let h = home.unwrap();
            assert(h.len() > 0);
            let i = if h.last() != '/' {
                h.len() as int
            } else {
                h.len() - 1
            };
            assert(b.subrange(i, i + 19) =~= "/.local/share/Trash"@);
            assert(occurs_at(b, "/.local/share/Trash"@, i));
        },
    }
    lemma_below_trash(b, rel);
}

/// The trash folder for these values of `XDG_DATA_HOME` and `HOME`.
pub fn trash_base_dir(xdg_data_home: Option<String>, home: Option<String>) -> (r: Option<String>)
    ensures
        opt_chars(r) == trash_base_spec(opt_chars(xdg_data_home), opt_chars(home)),
{
    match xdg_data_home {
        Some(d) => Some(join(d.as_str(), "Trash")),
        None => match home {
            Some(h) => Some(join(h.as_str(), ".local/share/Trash")),
            None => None,
        },
    }
}

/// Where trashed files go: the `files` folder of the trash.
pub fn trash_dir(xdg_data_home: Option<String>, home: Option<String>) -> (r: Option<String>)
    ensures
        opt_chars(r) == match trash_base_spec(opt_chars(xdg_data_home), opt_chars(home)) {
            Some(b) => Some(join_path(b, "files"@)),
            None => None,
        },
{
    match trash_base_dir(xdg_data_home, home) {
        Some(b) => Some(join(b.as_str(), "files")),
        None => None,
    }
}

/// The trash folder used when moving a file there: as `trash_base_spec`,
/// or `.local/share/Trash` under `$HOME` (or relative) when neither
/// variable is set.
pub open spec fn trash_root_spec(xdg_data_home: Option<Seq<char>>, home: Option<Seq<char>>) -> Seq<
    char,
> {
    match trash_base_spec(xdg_data_home, home) {
        Some(b) => b,
        None => join_path(
            match home {
                Some(h) => h,
                None => Seq::empty(),
            },
            ".local/share/Trash"@,
        ),
    }
}

/// The folder trashed files are stored in when moved by hand, whose names
/// a new one must avoid.
pub fn trash_files_dir(xdg_data_home: Option<String>, home: Option<String>) -> (r: String)
    ensures
        r@ == join_path(trash_root_spec(opt_chars(xdg_data_home), opt_chars(home)), "files"@),
{
    let home_dir = match &home {
        Some(h) => h.clone(),
        None => String::new(),
    };
    let root = match trash_base_dir(xdg_data_home, home) {
        Some(b) => b,
        None => join(home_dir.as_str(), ".local/share/Trash"),
    };
    join(root.as_str(), "files")
}

/// The files and info folders of the trash under the home folder `home`,
/// which emptying the trash clears.
pub fn home_trash_dirs(home: &str) -> (r: (String, String))
    ensures
        r.0@ == join_path(home@, ".local/share/Trash/files"@),
        r.1@ == join_path(home@, ".local/share/Trash/info"@),
{
    (join(home, ".local/share/Trash/files"), join(home, ".local/share/Trash/info"))
}

/// The `i`-th alternative name of a trashed file whose name is taken:
/// "stem (i)ext".
pub open spec fn trash_candidate(stem: Seq<char>, ext: Seq<char>, i: nat) -> Seq<char> {
    stem + " ("@ + decimal(i) + ")"@ + ext
}

/// The most alternative names tried.
pub open spec fn trash_attempts() -> nat {
    10000
}

/// `name` is what a trashed file named `file_name` is stored as, given the
/// names `taken` in the trash: its own name if free, otherwise the first
/// free alternative from 1 to 9999, otherwise its own name.
pub open spec fn is_trash_name(
    name: Seq<char>,
    file_name: Seq<char>,
    stem: Seq<char>,
    ext: Seq<char>,
    taken: Seq<Seq<char>>,
) -> bool {
    if !taken.contains(file_name) {
        name == file_name
    } else {
        ||| exists|i: nat|
            #![trigger trash_candidate(stem, ext, i)]
            1 <= i < trash_attempts() && name == trash_candidate(stem, ext, i) && !taken.contains(
                name,
            ) && forall|j: nat|
                1 <= j < i ==> taken.contains(#[trigger] trash_candidate(stem, ext, j))
        ||| name == file_name && forall|j: nat|
            1 <= j < trash_attempts() ==> taken.contains(#[trigger] trash_candidate(stem, ext, j))
    }
}

fn is_taken(name: &Vec<char>, taken: &Vec<String>) -> (r: bool)
    ensures
        r == views(taken@).contains(name@),
{
    let ghost tv = views(taken@);
    let mut i: usize = 0;
    while i < taken.len()
        invariant
            i <= taken.len(),
            tv == views(taken@),
            forall|j: int| 0 <= j < i ==> tv[j] != name@,
        decreases taken.len() - i,
    {
        let t = chars_of(taken[i].as_str());
        if chars_equal(&t, name) {
            assert(tv[i as int] == name@);
            return true;
        }
        i = i + 1;
    }
    false
}

/// The name a trashed file is stored as is determined by its name, its
/// stem and extension, and the names taken in the trash.
pub proof fn lemma_trash_name_unique(
    n1: Seq<char>,
    n2: Seq<char>,
    file_name: Seq<char>,
    stem: Seq<char>,
    ext: Seq<char>,
    taken: Seq<Seq<char>>,
)
    requires
        is_trash_name(n1, file_name, stem, ext, taken),
        is_trash_name(n2, file_name, stem, ext, taken),
    ensures
        n1 == n2,
{
    if taken.contains(file_name) {
        let a = exists|i: nat|
            #![trigger trash_candidate(stem, ext, i)]
            1 <= i < trash_attempts() && n1 == trash_candidate(stem, ext, i) && !taken.contains(n1)
                && forall|j: nat| 1 <= j < i ==> taken.contains(#[trigger] trash_candidate(stem, ext, j));
        let b = exists|i: nat|
            #![trigger trash_candidate(stem, ext, i)]
            1 <= i < trash_attempts() && n2 == trash_candidate(stem, ext, i) && !taken.contains(n2)
                && forall|j: nat| 1 <= j < i ==> taken.contains(#[trigger] trash_candidate(stem, ext, j));
        if a && b {
            let i1 = choose|i: nat|
                #![trigger trash_candidate(stem, ext, i)]
                1 <= i < trash_attempts() && n1 == trash_candidate(stem, ext, i) && !taken.contains(n1)
                    && forall|j: nat| 1 <= j < i ==> taken.contains(#[trigger] trash_candidate(stem, ext, j));
            let i2 = choose|i: nat|
                #![trigger trash_candidate(stem, ext, i)]
                1 <= i < trash_attempts() && n2 == trash_candidate(stem, ext, i) && !taken.contains(n2)
                    && forall|j: nat| 1 <= j < i ==> taken.contains(#[trigger] trash_candidate(stem, ext, j));
            if i1 < i2 {
                assert(taken.contains(trash_candidate(stem, ext, i1)));
            } else if i2 < i1 {
                assert(taken.contains(trash_candidate(stem, ext, i2)));
            }
        } else if a {
            let i1 = choose|i: nat|
                #![trigger trash_candidate(stem, ext, i)]
                1 <= i < trash_attempts() && n1 == trash_candidate(stem, ext, i) && !taken.contains(n1)
                    && forall|j: nat| 1 <= j < i ==> taken.contains(#[trigger] trash_candidate(stem, ext, j));
            assert(taken.contains(trash_candidate(stem, ext, i1)));
        } else if b {
            let i2 = choose|i: nat|
                #![trigger trash_candidate(stem, ext, i)]
                1 <= i < trash_attempts() && n2 == trash_candidate(stem, ext, i) && !taken.contains(n2)
                    && forall|j: nat| 1 <= j < i ==> taken.contains(#[trigger] trash_candidate(stem, ext, j));
            assert(taken.contains(trash_candidate(stem, ext, i2)));
        }
    }
}

/// The name a trashed file is stored under, given the names `taken` in the
/// trash's files folder.
pub fn trash_entry_name(file_name: &str, stem: &str, ext: &str, taken: &Vec<String>) -> (r: String)
    ensures
        is_trash_name(r@, file_name@, stem@, ext@, views(taken@)),
{
    let own = chars_of(file_name);
    if !is_taken(&own, taken) {
        return String::from_str(file_name);
    }
    let mut i: u64 = 1;
    while i < 10000
        invariant
            1 <= i <= 10000,
            views(taken@).contains(file_name@),
            forall|j: nat| 1 <= j < i ==> views(taken@).contains(#[trigger] trash_candidate(stem@, ext@, j)),
        decreases 10000 - i,
    {
        let mut cand: Vec<char> = Vec::new();
        push_str(&mut cand, stem);
        push_str(&mut cand, " (");
        push_decimal(i, &mut cand);
        push_str(&mut cand, ")");
        push_str(&mut cand, ext);
        assert(cand@ =~= trash_candidate(stem@, ext@, i as nat));
        if !is_taken(&cand, taken) {
            let r = string_from_chars(&cand);
            assert(is_trash_name(r@, file_name@, stem@, ext@, views(taken@)));
            return r;
        }
        i = i + 1;
    }
    String::from_str(file_name)
}

/// Where and under which name a file goes when it is moved to the trash by
/// hand.
pub struct TrashPlan {
    pub files_dir: String,
    pub info_dir: String,
    pub dest_file: String,
    pub info_file: String,
}

/// The name the trash knows `path` by: its file name, or "unnamed".
pub open spec fn trashed_name(path: Seq<char>) -> Seq<char> {
    match path_file_name(path) {
        Some(n) => n,
        None => "unnamed"@,
    }
}

/// The stem the alternative names of a trashed `path` start with.
pub open spec fn trashed_stem(path: Seq<char>) -> Seq<char> {
    match path_file_stem(path) {
        Some(s) => s,
        None => Seq::empty(),
    }
}

/// The ending of the alternative names of a trashed `path`: a dot and its
/// extension, or nothing.
pub open spec fn trashed_ext(path: Seq<char>) -> Seq<char> {
    match path_extension(path) {
        Some(e) => seq!['.'] + e,
        None => Seq::empty(),
    }
}

/// Plans moving `path` to the trash by hand, given `XDG_DATA_HOME`, `HOME`
/// and the names `taken` in the trash's files folder: the files and info
/// folders, the stored file, and its `.trashinfo` record.
#[verifier::spinoff_prover]
pub fn plan_trash(
    path: &str,
    xdg_data_home: Option<String>,
    home: Option<String>,
    taken: &Vec<String>,
) -> (r: TrashPlan)
    ensures
        r.files_dir@ == join_path(trash_root_spec(opt_chars(xdg_data_home), opt_chars(home)), "files"@),
        r.info_dir@ == join_path(trash_root_spec(opt_chars(xdg_data_home), opt_chars(home)), "info"@),
        exists|name: Seq<char>|
            is_trash_name(name, trashed_name(path@), trashed_stem(path@), trashed_ext(path@), views(taken@))
                && r.dest_file@ == join_path(r.files_dir@, name) && r.info_file@ == join_path(
                r.info_dir@,
                name + ".trashinfo"@,
            ),
{
    let home_dir = match &home {
        Some(h) => h.clone(),
        None => String::new(),
    };
    let root = match trash_base_dir(xdg_data_home, home) {
        Some(b) => b,
        None => join(home_dir.as_str(), ".local/share/Trash"),
    };
    assert(root@ == trash_root_spec(opt_chars(xdg_data_home), opt_chars(home)));
    let files_dir = join(root.as_str(), "files");
    let info_dir = join(root.as_str(), "info");
    let file_name = match file_name_of(path) {
        Some(n) => n,
        None => String::from_str("unnamed"),
    };
    let stem = match file_stem_of(path) {
        Some(s) => s,
        None => String::new(),
    };
    let mut ext_chars: Vec<char> = Vec::new();
    match extension_of(path) {
        Some(e) => {
            ext_chars.push('.');
            push_str(&mut ext_chars, e.as_str());
        },
        None => {},
    }
    let ext = string_from_chars(&ext_chars);
    assert(file_name@ == trashed_name(path@));
    assert(stem@ == trashed_stem(path@));
    assert(ext@ == trashed_ext(path@));
    let name = trash_entry_name(file_name.as_str(), stem.as_str(), ext.as_str(), taken);
    let dest_file = join(files_dir.as_str(), name.as_str());
    let mut info_name: Vec<char> = Vec::new();
    push_str(&mut info_name, name.as_str());
    push_str(&mut info_name, ".trashinfo");
    let info_name_s = string_from_chars(&info_name);
    let info_file = join(info_dir.as_str(), info_name_s.as_str());
    assert(info_name_s@ == name@ + ".trashinfo"@);
    let r = TrashPlan { files_dir, info_dir, dest_file, info_file };
    assert(is_trash_name(
        name@,
        trashed_name(path@),
        trashed_stem(path@),
        trashed_ext(path@),
        views(taken@),
    ));
    assert(r.dest_file@ == join_path(r.files_dir@, name@));
    assert(r.info_file@ == join_path(r.info_dir@, name@ + ".trashinfo"@));
    assert(exists|n: Seq<char>|
        is_trash_name(n, trashed_name(path@), trashed_stem(path@), trashed_ext(path@), views(taken@))
            && r.dest_file@ == join_path(r.files_dir@, n) && r.info_file@ == join_path(
            r.info_dir@,
            n + ".trashinfo"@,
        ));
    r
}

/// A local date and time, as the clock and the time zone give them.
#[derive(Clone, Copy, Debug, PartialEq, Eq, Structural)]
pub struct LocalTime {
    pub year: u32,
    pub month: u32,
    pub day: u32,
    pub hour: u32,
    pub minute: u32,
    pub second: u32,
}

/// `n` in decimal, with leading zeros up to `width` digits.
pub open spec fn padded(n: nat, width: nat) -> Seq<char> {
    let d = decimal(n);
    if d.len() >= width {
        d
    } else {
        Seq::new((width - d.len()) as nat, |i: int| '0') + d
    }
}

/// A local time as the trash specification writes it:
/// "YYYY-MM-DDThh:mm:ss".
pub open spec fn trash_date_spec(t: LocalTime) -> Seq<char> {
    padded(t.year as nat, 4) + "-"@ + padded(t.month as nat, 2) + "-"@ + padded(t.day as nat, 2)
        + "T"@ + padded(t.hour as nat, 2) + ":"@ + padded(t.minute as nat, 2) + ":"@ + padded(
        t.second as nat,
        2,
    )
}

/// Appends `n` with leading zeros up to `width` digits.
fn push_padded(n: u32, width: usize, out: &mut Vec<char>)
    ensures
        final(out)@ == old(out)@ + padded(n as nat, width as nat),
{
    let mut digits: Vec<char> = Vec::new();
    push_decimal(n as u64, &mut digits);
    assert(digits@ =~= decimal(n as nat));
    let ghost start = out@;
    if digits.len() < width {
        let fill = width - digits.len();
        let mut k: usize = 0;
        while k < fill
            invariant
                k <= fill,
                out@ == start + Seq::new(k as nat, |i: int| '0'),
            decreases fill - k,
        {
            out.push('0');
            assert(start + Seq::new((k + 1) as nat, |i: int| '0') =~= start + Seq::new(
                k as nat,
                |i: int| '0',
            ).push('0'));
            k = k + 1;
        }
    }
    push_all(out, &digits);
    assert(out@ =~= start + padded(n as nat, width as nat));
}

/// The date of a `.trashinfo` record for a file trashed at the local time `t`.
pub fn trash_date(t: &LocalTime) -> (r: String)
    ensures
        r@ == trash_date_spec(*t),
{
    let mut out: Vec<char> = Vec::new();
    push_padded(t.year, 4, &mut out);
    push_str(&mut out, "-");
    push_padded(t.month, 2, &mut out);
    push_str(&mut out, "-");
    push_padded(t.day, 2, &mut out);
    push_str(&mut out, "T");
    push_padded(t.hour, 2, &mut out);
    push_str(&mut out, ":");
    push_padded(t.minute, 2, &mut out);
    push_str(&mut out, ":");
    push_padded(t.second, 2, &mut out);
    assert(out@ =~= trash_date_spec(*t));
    string_from_chars(&out)
}

/// The `.trashinfo` record of a file that was at `original` and was
/// trashed at the local time `deleted_at`, as the FreeDesktop trash
/// specification lays it out.
pub open spec fn trash_info_spec(original: Seq<char>, deleted_at: LocalTime) -> Seq<char> {
    "[Trash Info]\nPath="@ + original + "\nDeletionDate="@ + trash_date_spec(deleted_at) + "\n"@
}

/// The `.trashinfo` record of a file that was at `original` and was
/// trashed at the local time `deleted_at`.
pub fn trash_info(original: &str, deleted_at: &LocalTime) -> (r: String)
    ensures
        r@ == trash_info_spec(original@, *deleted_at),
{
    let mut out: Vec<char> = Vec::new();
    push_str(&mut out, "[Trash Info]\nPath=");
    push_str(&mut out, original);
    push_str(&mut out, "\nDeletionDate=");
    let date = trash_date(deleted_at);
    push_str(&mut out, date.as_str());
    push_str(&mut out, "\n");
    assert(out@ =~= trash_info_spec(original@, *deleted_at));
    string_from_chars(&out)
}

} // verus!
