use vstd::prelude::*;

use crate::paths::{file_name_of, path_file_name};
use crate::text::{decimal, digit, digit_char, push_decimal, push_str, string_from_chars};

verus! {

/// What kind of filesystem object an entry is (symbolic links are not followed).
#[derive(Clone, Copy, Debug, PartialEq, Eq, Structural)]
pub enum FileKind {
    File,
    Directory,
    Symlink,
}

/// A point in time: whole seconds and nanoseconds since the Unix epoch
/// (seconds may be negative for times before it).
#[derive(Clone, Copy, Debug, PartialEq, Eq, Structural)]
pub struct Timestamp {
    pub secs: i64,
    pub nanos: u32,
}

impl Timestamp {
    /// The time in nanoseconds since the epoch.
    pub open spec fn instant(self) -> int {
        self.secs * 1_000_000_000 + self.nanos
    }

    pub fn instant_nanos(&self) -> (r: i128)
        ensures
            r == self.instant(),
    {
        (self.secs as i128) * 1_000_000_000 + (self.nanos as i128)
    }
}

/// What reading an object's metadata without following links tells.
#[derive(Clone, Copy, Debug, PartialEq, Eq, Structural)]
pub struct EntryMetadata {
    pub kind: FileKind,
    pub size: u64,
    pub modified: Option<Timestamp>,
}

/// The name of the entry at `path`: its last component, or empty.
pub open spec fn entry_name(path: Seq<char>) -> Seq<char> {
    match path_file_name(path) {
        Some(n) => n,
        None => Seq::empty(),
    }
}

/// One row of a directory listing: a file, folder or link with the metadata
/// the views show, and its size and age labels computed when it was read.
pub struct FileEntry {
    pub path: String,
    pub name: String,
    pub kind: FileKind,
    pub size: u64,
    pub modified: Option<Timestamp>,
    pub has_children: bool,
    pub cached_size_label: String,
    pub cached_date_label: String,
}

// ---------------------------------------------------------------------------
// Size labels
// ---------------------------------------------------------------------------

pub open spec fn kib() -> nat {
    1024
}

pub open spec fn mib() -> nat {
    1024 * 1024
}

pub open spec fn gib() -> nat {
    1024 * 1024 * 1024
}

/// `a / d` rounded to the nearest integer, ties to the even one.
pub open spec fn round_half_even(a: nat, d: nat) -> nat
    recommends
        d > 0,
{
    let q = a / d;
    let r = a % d;
    if 2 * r > d || (2 * r == d && q % 2 == 1) {
        q + 1
    } else {
        q
    }
}

/// The spacing of 64-bit floating point numbers around `n` (for `n < 2^64`).
pub open spec fn f64_spacing(n: nat) -> nat
    decreases n,
{
    if n < 0x20_0000_0000_0000 {
        1
    } else {
        2 * f64_spacing(n / 2)
    }
}

/// The value of `n as f64`: `n` rounded to 53 significant bits, ties to even.
pub open spec fn as_f64(n: nat) -> nat {
    round_half_even(n, f64_spacing(n)) * f64_spacing(n)
}

/// A number of tenths with one decimal place, as `{:.1}` prints it.
pub open spec fn one_decimal(tenths: nat) -> Seq<char> {
    decimal(tenths / 10) + seq!['.', digit_char(tenths % 10)]
}

/// The size column: "--" for folders, otherwise the size in the largest of
/// GB, MB, KB and B that it reaches, as `{:.1}`/`{:.0}` print the quotient.
pub open spec fn size_label_spec(size: nat, is_dir: bool) -> Seq<char> {
    if is_dir {
        "--"@
    } else if size >= gib() {
        one_decimal(round_half_even(as_f64(size) * 10, gib())) + " GB"@
    } else if size >= mib() {
        one_decimal(round_half_even(size * 10, mib())) + " MB"@
    } else if size >= kib() {
        decimal(round_half_even(size, kib())) + " KB"@
    } else {
        decimal(size) + " B"@
    }
}

fn round_half_even_exec(a: u128, d: u128) -> (r: u128)
    requires
        0 < d < 0x1_0000_0000_0000_0000_0000,
        a < 0x1_0000_0000_0000_0000_0000_0000_0000,
    ensures
        r == round_half_even(a as nat, d as nat),
{
    let q = a / d;
    let r = a % d;
    if 2 * r > d || (2 * r == d && q % 2 == 1) {
        q + 1
    } else {
        q
    }
}

/// `n as f64` as an exact integer.
fn as_f64_exec(n: u64) -> (r: u128)
    ensures
        r == as_f64(n as nat),
        r <= 0x1_0000_0000_0000_1000,
{
    let mut u: u128 = 1;
    while (n as u128) / u >= 0x20_0000_0000_0000
        invariant
            1 <= u <= 0x1000,
            f64_spacing(n as nat) == u * f64_spacing((n as nat) / (u as nat)),
        decreases 0x2000 - u,
    {
        let ghost m = (n as nat) / (u as nat);
        proof {
            assert(u * 0x20_0000_0000_0000 <= n) by (nonlinear_arith)
                requires
                    (n as nat) / (u as nat) >= 0x20_0000_0000_0000,
                    u >= 1,
            ;
            vstd::arithmetic::div_mod::lemma_div_denominator(n as int, u as int, 2);
            assert(f64_spacing(m) == 2 * f64_spacing(m / 2));
            assert((n as nat) / (u as nat) / 2 == (n as nat) / ((u * 2) as nat));
            assert(u < 0x800);
            let sp = f64_spacing((n as nat) / ((u * 2) as nat));
            assert(u * (2 * sp) == (u * 2) * sp) by (nonlinear_arith);
        }
        u = u * 2;
    }
    proof {
        assert(f64_spacing((n as nat) / (u as nat)) == 1);
    }
    let rq = round_half_even_exec(n as u128, u);
    proof {
        assert(rq <= (n as nat) / (u as nat) + 1);
        assert((n as nat) / (u as nat) * u <= n) by (nonlinear_arith)
            requires
                u >= 1,
        ;
        assert(((n as nat) / (u as nat) + 1) * u <= n + u) by (nonlinear_arith)
            requires
                (n as nat) / (u as nat) * u <= n,
        ;
        assert(rq * u <= ((n as nat) / (u as nat) + 1) * u) by (nonlinear_arith)
            requires
                rq <= (n as nat) / (u as nat) + 1,
                u >= 1,
        ;
    }
    rq * u
}

/// Appends `tenths / 10` with one decimal place.
fn push_one_decimal(tenths: u64, out: &mut Vec<char>)
    ensures
        final(out)@ == old(out)@ + one_decimal(tenths as nat),
{
    push_decimal(tenths / 10, out);
    out.push('.');
    out.push(digit(tenths % 10));
    assert(old(out)@ + decimal((tenths / 10) as nat) + seq!['.'] + seq![digit_char((tenths % 10) as nat)]
        =~= old(out)@ + one_decimal(tenths as nat));
}

/// The size label of an entry of `size` bytes.
pub fn format_size_label(size: u64, is_dir: bool) -> (s: String)
    ensures
        s@ == size_label_spec(size as nat, is_dir),
{
    let mut out: Vec<char> = Vec::new();
    if is_dir {
        push_str(&mut out, "--");
    } else if size >= 1024 * 1024 * 1024 {
        let v = as_f64_exec(size);
        let tenths = round_half_even_exec(v * 10, 1024 * 1024 * 1024);
        proof {
            assert(tenths <= (v * 10) as int / 1073741824 + 1);
        }
        push_one_decimal(tenths as u64, &mut out);
        push_str(&mut out, " GB");
    } else if size >= 1024 * 1024 {
        let tenths = round_half_even_exec((size as u128) * 10, 1024 * 1024);
        push_one_decimal(tenths as u64, &mut out);
        push_str(&mut out, " MB");
    } else if size >= 1024 {
        let k = round_half_even_exec(size as u128, 1024);
        push_decimal(k as u64, &mut out);
        push_str(&mut out, " KB");
    } else {
        push_decimal(size, &mut out);
        push_str(&mut out, " B");
    }
    assert(out@ =~= size_label_spec(size as nat, is_dir));
    string_from_chars(&out)
}

// ---------------------------------------------------------------------------
// Age labels
// ---------------------------------------------------------------------------

/// Whole seconds from `modified` to `now`; zero when `modified` is not earlier
/// (`SystemTime::duration_since` falling back to the default duration).
pub open spec fn age_seconds(modified: Timestamp, now: Timestamp) -> nat {
    let d = now.instant() - modified.instant();
    if d <= 0 {
        0
    } else {
        (d / 1_000_000_000) as nat
    }
}

/// The label for an age of `days` whole days.
pub open spec fn age_label(days: nat) -> Seq<char> {
    if days == 0 {
        "Today"@
    } else if days == 1 {
        "Yesterday"@
    } else if days < 7 {
        decimal(days) + " days ago"@
    } else if days < 30 {
        decimal(days / 7) + " weeks ago"@
    } else if days < 365 {
        decimal(days / 30) + " months ago"@
    } else {
        decimal(days / 365) + " years ago"@
    }
}

/// The date column: "--" without a modification time, otherwise its age.
pub open spec fn date_label_spec(modified: Option<Timestamp>, now: Timestamp) -> Seq<char> {
    match modified {
        None => "--"@,
        Some(t) => age_label(age_seconds(t, now) / 86400),
    }
}

/// The date label of an entry modified at `modified`, as seen at `now`.
pub fn format_date_label(modified: Option<Timestamp>, now: Timestamp) -> (s: String)
    ensures
        s@ == date_label_spec(modified, now),
{
    let mut out: Vec<char> = Vec::new();
    match modified {
        None => {
            push_str(&mut out, "--");
        },
        Some(t) => {
            let d = now.instant_nanos() - t.instant_nanos();
            let secs: i128 = if d <= 0 {
                0
            } else {
                d / 1_000_000_000
            };
            let days = (secs / 86400) as u64;
            assert(days == age_seconds(t, now) / 86400);
            if days == 0 {
                push_str(&mut out, "Today");
            } else if days == 1 {
                push_str(&mut out, "Yesterday");
            } else if days < 7 {
                push_decimal(days, &mut out);
                push_str(&mut out, " days ago");
            } else if days < 30 {
                push_decimal(days / 7, &mut out);
                push_str(&mut out, " weeks ago");
            } else if days < 365 {
                push_decimal(days / 30, &mut out);
                push_str(&mut out, " months ago");
            } else {
                push_decimal(days / 365, &mut out);
                push_str(&mut out, " years ago");
            }
        },
    }
    assert(out@ =~= date_label_spec(modified, now));
    string_from_chars(&out)
}

// ---------------------------------------------------------------------------
// Entries
// ---------------------------------------------------------------------------

/// The label of the kind column.
pub open spec fn kind_label_spec(kind: FileKind) -> Seq<char> {
    match kind {
        FileKind::Directory => "Folder"@,
        FileKind::Symlink => "Alias"@,
        FileKind::File => "Document"@,
    }
}

impl FileEntry {
    /// The entry for the object at `path` named `name`, with the metadata that
    /// was read for it: `dir_nonempty` tells whether a folder had any entry
    /// (only folders can have children), and `now` is the time the labels are
    /// computed for.
    pub fn new(
        path: String,
        name: String,
        kind: FileKind,
        size: u64,
        modified: Option<Timestamp>,
        dir_nonempty: bool,
        now: Timestamp,
    ) -> (e: FileEntry)
        ensures
            e.path == path,
            e.name == name,
            e.kind == kind,
            e.size == size,
            e.modified == modified,
            e.has_children == (kind == FileKind::Directory && dir_nonempty),
            e.cached_size_label@ == size_label_spec(size as nat, kind == FileKind::Directory),
            e.cached_date_label@ == date_label_spec(modified, now),
    {
        let is_dir = match kind {
            FileKind::Directory => true,
            _ => false,
        };
        FileEntry {
            has_children: is_dir && dir_nonempty,
            cached_size_label: format_size_label(size, is_dir),
            cached_date_label: format_date_label(modified, now),
            path,
            name,
            kind,
            size,
            modified,
        }
    }

    pub open spec fn is_directory(&self) -> bool {
        self.kind == FileKind::Directory
    }

    /// Whether the entry is a folder.
    pub fn is_dir(&self) -> (r: bool)
        ensures
            r == self.is_directory(),
    {
        match self.kind {
            FileKind::Directory => true,
            _ => false,
        }
    }

    /// "Folder", "Alias" or "Document".
    pub fn kind_label(&self) -> (r: &'static str)
        ensures
            r@ == kind_label_spec(self.kind),
    {
        match self.kind {
            FileKind::Directory => "Folder",
            FileKind::Symlink => "Alias",
            FileKind::File => "Document",
        }
    }

    /// The size label computed when the entry was read.
    pub fn size_label(&self) -> (r: &str)
        ensures
            r@ == self.cached_size_label@,
    {
        self.cached_size_label.as_str()
    }

    /// The date label computed when the entry was read.
    pub fn date_label(&self) -> (r: &str)
        ensures
            r@ == self.cached_date_label@,
    {
        self.cached_date_label.as_str()
    }

    /// The entry for the object at `path`, from what was read of it without
    /// following links (`None` when nothing could be read, and then there is
    /// no entry); `dir_nonempty` tells whether a folder had any entry, and
    /// `now` is the time the labels are computed for. The name is the
    /// path's last component, or empty.
    pub fn from_path(path: String, meta: Option<EntryMetadata>, dir_nonempty: bool, now: Timestamp) -> (r:
        Option<FileEntry>)
        ensures
            meta is None ==> r is None,
            meta matches Some(m) ==> r matches Some(e) && {
                &&& e.path == path
                &&& e.name@ == entry_name(path@)
                &&& e.kind == m.kind
                &&& e.size == m.size
                &&& e.modified == m.modified
                &&& e.has_children == (m.kind == FileKind::Directory && dir_nonempty)
                &&& e.cached_size_label@ == size_label_spec(m.size as nat, m.kind == FileKind::Directory)
                &&& e.cached_date_label@ == date_label_spec(m.modified, now)
            },
    {
        match meta {
            None => None,
            Some(m) => {
                let name = match file_name_of(path.as_str()) {
                    Some(n) => n,
                    None => String::new(),
                };
                assert(name@ == entry_name(path@));
                Some(FileEntry::new(path, name, m.kind, m.size, m.modified, dir_nonempty, now))
            },
        }
    }

    /// A copy of the entry.
    pub fn duplicate(&self) -> (r: FileEntry)
        ensures
            r == *self,
    {
        FileEntry {
            path: self.path.clone(),
            name: self.name.clone(),
            kind: self.kind,
            size: self.size,
            modified: self.modified,
            has_children: self.has_children,
            cached_size_label: self.cached_size_label.clone(),
            cached_date_label: self.cached_date_label.clone(),
        }
    }
}

} // verus!
