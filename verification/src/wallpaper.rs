//! Wallpapers: which files are images, where their thumbnails go, and the
//! wallpaper daemon commands that showing, hiding and applying one take.
use vstd::prelude::*;
use vstd::string::StringSliceAdditionalSpecFns;
use crate::json::str_eq;
use crate::paths::{extension, join_path, spec_extension, spec_join_path};
use crate::text::{
    chars_of, has_prefix, hex_char, lowercase, push_all, push_str, slice_chars, spec_lowercase,
    starts_with, string_of, trim, trim_str,
};

verus! {

/// Image files are recognized by extension, in any letter case.
pub open spec fn spec_is_img(file_name: Seq<char>) -> bool {
    match spec_extension(file_name) {
        Some(e) => {
            let l = spec_lowercase(e);
            l == "jpg"@ || l == "jpeg"@ || l == "png"@ || l == "webp"@ || l == "gif"@
        },
        None => false,
    }
}

/// Is the file an image the picker shows (jpg, jpeg, png, webp, gif)?
pub fn is_img(file_name: &str) -> (r: bool)
    ensures
        r == spec_is_img(file_name@),
{
    match extension(file_name) {
        Some(e) => {
            let l = lowercase(e.as_str());
            let ls = l.as_str();
            str_eq(ls, "jpg") || str_eq(ls, "jpeg") || str_eq(ls, "png") || str_eq(ls, "webp")
                || str_eq(ls, "gif")
        },
        None => false,
    }
}

/// FNV-1a offset basis and prime (64-bit).
pub const FNV_OFFSET: u64 = 0xcbf29ce484222325;

pub const FNV_PRIME: u64 = 0x100000001b3;

/// 64-bit FNV-1a hash of a byte string.
pub open spec fn fnv1a(bytes: Seq<u8>) -> u64
    decreases bytes.len(),
{
    if bytes.len() == 0 {
        FNV_OFFSET
    } else {
        (fnv1a(bytes.drop_last()) ^ (bytes.last() as u64)).wrapping_mul(FNV_PRIME)
    }
}

/// The last `k` hexadecimal digits of `n`, zero-padded (`{:0k$x}` for `n < 16^k`).
pub open spec fn hex_digits(n: nat, k: nat) -> Seq<char>
    decreases k,
{
    if k == 0 {
        Seq::empty()
    } else {
        hex_digits(n / 16, (k - 1) as nat).push(hex_char(n % 16))
    }
}

fn hex_char_exec(d: u64) -> (c: char)
    requires
        d < 16,
    ensures
        c == hex_char(d as nat),
{
    if d == 0 {
        '0'
    } else if d == 1 {
        '1'
    } else if d == 2 {
        '2'
    } else if d == 3 {
        '3'
    } else if d == 4 {
        '4'
    } else if d == 5 {
        '5'
    } else if d == 6 {
        '6'
    } else if d == 7 {
        '7'
    } else if d == 8 {
        '8'
    } else if d == 9 {
        '9'
    } else if d == 10 {
        'a'
    } else if d == 11 {
        'b'
    } else if d == 12 {
        'c'
    } else if d == 13 {
        'd'
    } else if d == 14 {
        'e'
    } else {
        'f'
    }
}

fn push_hex(out: &mut Vec<char>, n: u64, k: u64)
    ensures
        final(out)@ == old(out)@ + hex_digits(n as nat, k as nat),
    decreases k,
{
    if k > 0 {
        push_hex(out, n / 16, k - 1);
        out.push(hex_char_exec(n % 16));
        assert(final(out)@ =~= old(out)@ + hex_digits(n as nat, k as nat));
    } else {
        assert(final(out)@ =~= old(out)@ + hex_digits(n as nat, k as nat));
    }
}

fn fnv1a_exec(bytes: &[u8]) -> (h: u64)
    ensures
        h == fnv1a(bytes@),
{
    let mut h: u64 = FNV_OFFSET;
    let mut i: usize = 0;
    while i < bytes.len()
        invariant
            i <= bytes@.len(),
            h == fnv1a(bytes@.take(i as int)),
        decreases bytes.len() - i,
    {
        assert(bytes@.take(i + 1).drop_last() =~= bytes@.take(i as int));
        h = (h ^ (bytes[i] as u64)).wrapping_mul(FNV_PRIME);
        i = i + 1;
    }
    assert(bytes@.take(bytes@.len() as int) =~= bytes@);
    h
}

/// The thumbnail directory below a home directory.
pub open spec fn spec_thumb_dir(home: Seq<char>) -> Seq<char> {
    spec_join_path(home, ".cache/sshell/thumbnails"@)
}

/// `~/.cache/sshell/thumbnails` for the given home directory.
pub fn thumb_dir_in(home: &str) -> (r: String)
    ensures
        r@ == spec_thumb_dir(home@),
{
    join_path(home, ".cache/sshell/thumbnails")
}

/// A file in the thumbnail directory named by the 16-digit FNV-1a hash of the
/// source path's bytes, followed by `suffix`.
pub open spec fn spec_thumb_file(home: Seq<char>, src: Seq<u8>, suffix: Seq<char>) -> Seq<char> {
    spec_join_path(spec_thumb_dir(home), hex_digits(fnv1a(src) as nat, 16) + suffix)
}

/// The thumbnail of a source: the hash name with `.jpg`.
pub open spec fn spec_thumb_for(home: Seq<char>, src: Seq<u8>) -> Seq<char> {
    spec_thumb_file(home, src, ".jpg"@)
}

/// Where a thumbnail is written before it is renamed into place: the hash
/// name with `.tmp.jpg` (`with_extension("tmp.jpg")` of the thumbnail).
pub open spec fn spec_thumb_tmp(home: Seq<char>, src: Seq<u8>) -> Seq<char> {
    spec_thumb_file(home, src, ".tmp.jpg"@)
}

fn thumb_file(home: &str, src: &[u8], suffix: &str) -> (r: String)
    ensures
        r@ == spec_thumb_file(home@, src@, suffix@),
{
    let h = fnv1a_exec(src);
    let mut name: Vec<char> = Vec::new();
    push_hex(&mut name, h, 16);
    push_str(&mut name, suffix);
    let dir = thumb_dir_in(home);
    let n = string_of(name.as_slice());
    join_path(dir.as_str(), n.as_str())
}

/// Path of the 256px thumbnail for a source file (`src` is the path's text as
/// bytes); stable across runs, no external hashing tool.
pub fn thumb_for(home: &str, src: &[u8]) -> (r: String)
    ensures
        r@ == spec_thumb_for(home@, src@),
{
    thumb_file(home, src, ".jpg")
}

/// The name for what the `image` crate makes of an image file's bytes: decoded
/// as the format its extension names, scaled and cropped to fill 256×256
/// (triangle filter), encoded as JPEG; `None` when any step fails.
pub uninterp spec fn spec_thumbnail_jpeg(bytes: Seq<u8>, ext: Seq<char>) -> Option<Seq<u8>>;

/// `image::ImageFormat::from_extension`, `load_from_memory_with_format`,
/// `resize_to_fill(256, 256, Triangle)` and `write_to(.., Jpeg)`: the JPEG
/// thumbnail of an image file's bytes, named by [`spec_thumbnail_jpeg`].
#[verifier::external_body]
fn thumbnail_jpeg(bytes: &[u8], ext: &str) -> (r: Option<Vec<u8>>)
    ensures
        match r {
            Some(v) => spec_thumbnail_jpeg(bytes@, ext@) == Some(v@),
            None => spec_thumbnail_jpeg(bytes@, ext@) is None,
        },
{
    let format = image::ImageFormat::from_extension(ext)?;
    let img = image::load_from_memory_with_format(bytes, format).ok()?;
    let t = img.resize_to_fill(256, 256, image::imageops::FilterType::Triangle);
    let mut out = std::io::Cursor::new(Vec::new());
    t.write_to(&mut out, image::ImageFormat::Jpeg).ok()?;
    Some(out.into_inner())
}

/// The JPEG thumbnail of a file, given its name (whose extension selects the
/// decoder; none without an extension) and its bytes.
pub open spec fn spec_thumbnail(file_name: Seq<char>, bytes: Seq<u8>) -> Option<Seq<u8>> {
    spec_thumbnail_jpeg(
        bytes,
        match spec_extension(file_name) {
            Some(e) => e,
            None => Seq::empty(),
        },
    )
}

/// What making sure a thumbnail exists comes to.
#[derive(Debug)]
pub enum ThumbJob {
    /// The thumbnail is already there.
    Cached(String),
    /// Write `jpeg` to `tmp`, then rename it to `dst`.
    Write { jpeg: Vec<u8>, tmp: String, dst: String },
    /// The source could not be read or turned into a thumbnail.
    Failed,
}

/// Decides a thumbnail: an existing one is used as it is; otherwise the
/// source's bytes (`None` when the file could not be read) are turned into a
/// JPEG to be written next to the final name and renamed into place.
pub fn ensure_thumb(home: &str, src: &str, file_name: &str, cached: bool, source: Option<&[u8]>) -> (r: ThumbJob)
    ensures
        cached <==> r is Cached,
        match r {
            ThumbJob::Cached(p) => p@ == spec_thumb_for(home@, src.spec_bytes()),
            ThumbJob::Write { jpeg, tmp, dst } => {
                &&& source matches Some(b) && spec_thumbnail(file_name@, b@) == Some(jpeg@)
                &&& dst@ == spec_thumb_for(home@, src.spec_bytes())
                &&& tmp@ == spec_thumb_tmp(home@, src.spec_bytes())
            },
            ThumbJob::Failed => match source {
                Some(b) => spec_thumbnail(file_name@, b@) is None,
                None => true,
            },
        },
{
    let key = src.as_bytes();
    if cached {
        return ThumbJob::Cached(thumb_for(home, key));
    }
    let bytes = match source {
        Some(b) => b,
        None => return ThumbJob::Failed,
    };
    let ext = match extension(file_name) {
        Some(e) => e,
        None => String::new(),
    };
    match thumbnail_jpeg(bytes, ext.as_str()) {
        Some(jpeg) => ThumbJob::Write {
            jpeg,
            tmp: thumb_file(home, key, ".tmp.jpg"),
            dst: thumb_for(home, key),
        },
        None => ThumbJob::Failed,
    }
}

/// Every thumbnail name has exactly sixteen hexadecimal digits before `.jpg`.
pub proof fn hex_name_length(n: nat, k: nat)
    ensures
        hex_digits(n, k).len() == k,
    decreases k,
{
    if k > 0 {
        hex_name_length(n / 16, (k - 1) as nat);
    }
}

/// A configured directory with a leading `~/` standing for the home
/// directory; any other `~` is an ordinary character.
pub open spec fn spec_expand_home(raw: Seq<char>, home: Seq<char>) -> Seq<char> {
    if starts_with(raw, "~/"@) {
        home + raw.skip(1)
    } else {
        raw
    }
}

/// Expands a leading `~/` of a configured directory to the home directory.
pub fn expand_home(raw: &str, home: &str) -> (r: String)
    ensures
        r@ == spec_expand_home(raw@, home@),
{
    let v = chars_of(raw);
    let lead = chars_of("~/");
    if !has_prefix(&v, &lead) {
        return string_of(v.as_slice());
    }
    proof {
        reveal_strlit("~/");
    }
    assert(lead@.len() == 2);
    let mut out = chars_of(home);
    let rest = slice_chars(&v, 1, v.len());
    push_all(&mut out, &rest);
    assert(rest@ =~= raw@.skip(1));
    string_of(out.as_slice())
}

/// Did the wallpaper change? The state file holds the previous source path.
pub fn state_changed(prev_state: &str, src: &str) -> (r: bool)
    ensures
        r == (trim(prev_state@) != src@),
{
    let p = trim_str(prev_state);
    !str_eq(p.as_str(), src)
}

/// The texts of a list of argument vectors.
pub open spec fn argvs(v: Seq<Vec<String>>) -> Seq<Seq<Seq<char>>> {
    v.map_values(|a: Vec<String>| a@.map_values(|s: String| s@))
}

/// The daemon commands that show a wallpaper: preload it, then set it on every
/// output.
pub open spec fn show_cmds(cur: Seq<char>) -> Seq<Seq<Seq<char>>> {
    seq![seq!["hyprpaper"@, "preload"@, cur], seq!["hyprpaper"@, "wallpaper"@, ","@ + cur]]
}

/// Toggling visibility: hiding unloads every wallpaper; showing re-applies the
/// persisted one when the state file was read and names one.
pub open spec fn spec_toggle_plan(visible: bool, state: Option<Seq<char>>) -> (
    bool,
    Seq<Seq<Seq<char>>>,
) {
    if visible {
        (false, seq![seq!["hyprpaper"@, "unload"@, "all"@]])
    } else {
        match state {
            Some(s) => if trim(s).len() > 0 {
                (true, show_cmds(trim(s)))
            } else {
                (true, Seq::empty())
            },
            None => (true, Seq::empty()),
        }
    }
}

fn argv3(a: &str, b: &str, c: &str) -> (r: Vec<String>)
    ensures
        r@.map_values(|s: String| s@) == seq![a@, b@, c@],
{
    let mut v: Vec<String> = Vec::new();
    v.push(String::from_str(a));
    v.push(String::from_str(b));
    v.push(String::from_str(c));
    assert(v@.map_values(|s: String| s@) =~= seq![a@, b@, c@]);
    v
}

/// The commands showing a wallpaper (`wallpaper` names the source).
pub fn show_commands(wallpaper: &str) -> (r: Vec<Vec<String>>)
    ensures
        argvs(r@) == show_cmds(wallpaper@),
{
    let mut arg: Vec<char> = Vec::new();
    push_str(&mut arg, ",");
    push_str(&mut arg, wallpaper);
    let a = string_of(arg.as_slice());
    let mut v: Vec<Vec<String>> = Vec::new();
    v.push(argv3("hyprpaper", "preload", wallpaper));
    v.push(argv3("hyprpaper", "wallpaper", a.as_str()));
    assert(argvs(v@) =~= show_cmds(wallpaper@));
    v
}

pub open spec fn opt_text(x: Option<&str>) -> Option<Seq<char>> {
    match x {
        Some(s) => Some(s@),
        None => None,
    }
}

/// The new visibility and the daemon commands of a toggle, from the current
/// visibility and the state file's content (`None` when it could not be read).
pub fn toggle_plan(visible: bool, state: Option<&str>) -> (r: (bool, Vec<Vec<String>>))
    ensures
        (r.0, argvs(r.1@)) == spec_toggle_plan(visible, opt_text(state)),
{
    if visible {
        let mut v: Vec<Vec<String>> = Vec::new();
        v.push(argv3("hyprpaper", "unload", "all"));
        assert(argvs(v@) =~= seq![seq!["hyprpaper"@, "unload"@, "all"@]]);
        return (false, v);
    }
    match state {
        Some(s) => {
            let cur = trim_str(s);
            if cur.as_str().is_empty() {
                let v: Vec<Vec<String>> = Vec::new();
                assert(argvs(v@) =~= Seq::<Seq<Seq<char>>>::empty());
                (true, v)
            } else {
                (true, show_commands(cur.as_str()))
            }
        },
        None => {
            let v: Vec<Vec<String>> = Vec::new();
            assert(argvs(v@) =~= Seq::<Seq<Seq<char>>>::empty());
            (true, v)
        },
    }
}

/// Two toggles in a row bring the visibility back.
pub proof fn toggle_twice_restores(visible: bool, a: Option<Seq<char>>, b: Option<Seq<char>>)
    ensures
        spec_toggle_plan(spec_toggle_plan(visible, a).0, b).0 == visible,
{
}

/// The generator's argument vectors: `matugen image <src> -t scheme-vibrant`,
/// with `--json hex --dry-run` for the preview that yields the colours.
pub open spec fn spec_matugen_argv(src: Seq<char>, preview: bool) -> Seq<Seq<char>> {
    let base = seq!["matugen"@, "image"@, src, "-t"@, "scheme-vibrant"@];
    if preview {
        base + seq!["--json"@, "hex"@, "--dry-run"@]
    } else {
        base
    }
}

/// The theme generator's command for a wallpaper (program first), as data:
/// the JSON preview when `preview`, the full template pass otherwise.
pub fn matugen_argv(src: &str, preview: bool) -> (r: Vec<String>)
    ensures
        r@.map_values(|s: String| s@) == spec_matugen_argv(src@, preview),
{
    let mut v: Vec<String> = Vec::new();
    v.push(String::from_str("matugen"));
    v.push(String::from_str("image"));
    v.push(String::from_str(src));
    v.push(String::from_str("-t"));
    v.push(String::from_str("scheme-vibrant"));
    if preview {
        v.push(String::from_str("--json"));
        v.push(String::from_str("hex"));
        v.push(String::from_str("--dry-run"));
    }
    assert(v@.map_values(|s: String| s@) =~= spec_matugen_argv(src@, preview));
    v
}

/// What applying a wallpaper does about the theme.
#[derive(Debug, Clone, Copy, PartialEq, Eq, Structural)]
pub enum ThemeStep {
    /// Same wallpaper as before: the theme is kept.
    Keep,
    /// New wallpaper and the generator is installed: regenerate the theme.
    Regenerate,
    /// New wallpaper but no generator: the wallpaper is set, the theme kept.
    NoGenerator,
}

/// The theme step: regenerate only for a changed wallpaper with the generator present.
pub open spec fn spec_theme_step(changed: bool, has_generator: bool) -> ThemeStep {
    if !changed {
        ThemeStep::Keep
    } else if has_generator {
        ThemeStep::Regenerate
    } else {
        ThemeStep::NoGenerator
    }
}

/// Chooses the theme step of an apply.
pub fn theme_step(changed: bool, has_generator: bool) -> (r: ThemeStep)
    ensures
        r == spec_theme_step(changed, has_generator),
{
    if !changed {
        ThemeStep::Keep
    } else if has_generator {
        ThemeStep::Regenerate
    } else {
        ThemeStep::NoGenerator
    }
}

/// The outcome reported by an apply; `preview_ok` says whether the
/// generator's preview succeeded (it only runs for [`ThemeStep::Regenerate`]).
pub open spec fn spec_apply_outcome(step: ThemeStep, preview_ok: bool) -> Result<Seq<char>, Seq<char>> {
    match step {
        ThemeStep::Keep => Ok("unchanged (theme kept)"@),
        ThemeStep::NoGenerator => Ok("matugen not installed (wallpaper set)"@),
        ThemeStep::Regenerate => if preview_ok {
            Ok("theme regenerated"@)
        } else {
            Err("matugen failed"@)
        },
    }
}

pub open spec fn result_text(r: Result<String, String>) -> Result<Seq<char>, Seq<char>> {
    match r {
        Ok(s) => Ok(s@),
        Err(e) => Err(e@),
    }
}

/// The message an apply reports.
pub fn apply_outcome(step: ThemeStep, preview_ok: bool) -> (r: Result<String, String>)
    ensures
        result_text(r) == spec_apply_outcome(step, preview_ok),
{
    match step {
        ThemeStep::Keep => Ok(String::from_str("unchanged (theme kept)")),
        ThemeStep::NoGenerator => Ok(String::from_str("matugen not installed (wallpaper set)")),
        ThemeStep::Regenerate => if preview_ok {
            Ok(String::from_str("theme regenerated"))
        } else {
            Err(String::from_str("matugen failed"))
        },
    }
}

/// The generated theme document below a home directory.
pub fn theme_json_in(home: &str) -> (r: String)
    ensures
        r@ == spec_join_path(home@, ".config/sshell/material-theme.json"@),
{
    join_path(home, ".config/sshell/material-theme.json")
}

/// The generator's template directory below a home directory.
pub fn templates_dir_in(home: &str) -> (r: String)
    ensures
        r@ == spec_join_path(home@, ".config/matugen/templates"@),
{
    join_path(home, ".config/matugen/templates")
}

/// The directories of a `PATH` value (`str::split(':')`: empty entries kept).
pub open spec fn split_colon(s: Seq<char>) -> Seq<Seq<char>>
    decreases s.len(),
{
    if s.len() == 0 {
        seq![Seq::empty()]
    } else {
        let rest = split_colon(s.drop_last());
        if s.last() == ':' {
            rest.push(Seq::empty())
        } else {
            rest.update(rest.len() - 1, rest.last().push(s.last()))
        }
    }
}

proof fn lemma_split_colon_len(s: Seq<char>)
    ensures
        split_colon(s).len() >= 1,
    decreases s.len(),
{
    if s.len() > 0 {
        lemma_split_colon_len(s.drop_last());
    }
}

/// Where a program is looked for: each `PATH` directory joined with its name.
pub open spec fn spec_which_candidates(path_var: Seq<char>, bin: Seq<char>) -> Seq<Seq<char>> {
    split_colon(path_var).map_values(|d: Seq<char>| spec_join_path(d, bin))
}

/// The candidate paths of a program along `PATH`, in search order.
pub fn which_candidates(path_var: &str, bin: &str) -> (r: Vec<String>)
    ensures
        r@.map_values(|s: String| s@) == spec_which_candidates(path_var@, bin@),
{
    let v = chars_of(path_var);
    let mut dirs: Vec<Vec<char>> = Vec::new();
    dirs.push(Vec::new());
    let mut i: usize = 0;
    while i < v.len()
        invariant
            i <= v@.len(),
            v@ == path_var@,
            dirs@.len() >= 1,
            dirs@.map_values(|d: Vec<char>| d@) == split_colon(v@.take(i as int)),
        decreases v.len() - i,
    {
        proof {
            assert(v@.take(i + 1).drop_last() =~= v@.take(i as int));
            lemma_split_colon_len(v@.take(i as int));
        }
        let ghost before = dirs@;
        if v[i] == ':' {
            dirs.push(Vec::new());
            assert(dirs@.map_values(|d: Vec<char>| d@) =~= split_colon(v@.take(i + 1)));
        } else {
            let last = dirs.len() - 1;
            let mut cur = dirs[last].clone();
            cur.push(v[i]);
            dirs.set(last, cur);
            assert(dirs@.map_values(|d: Vec<char>| d@) =~= split_colon(v@.take(i + 1)));
        }
        i = i + 1;
    }
    assert(v@.take(v@.len() as int) =~= v@);
    let mut out: Vec<String> = Vec::new();
    let mut k: usize = 0;
    while k < dirs.len()
        invariant
            k <= dirs@.len(),
            dirs@.map_values(|d: Vec<char>| d@) == split_colon(path_var@),
            out@.map_values(|s: String| s@) == spec_which_candidates(path_var@, bin@).take(
                k as int,
            ),
        decreases dirs.len() - k,
    {
        let d = string_of(dirs[k].as_slice());
        let ghost o = out@;
        let p = join_path(d.as_str(), bin);
        out.push(p);
        proof {
            let g = |s: String| s@;
            assert(out@ =~= o.push(p));
            assert(out@.map_values(g) =~= o.map_values(g).push(p@));
            assert(dirs@.map_values(|d: Vec<char>| d@)[k as int] == dirs@[k as int]@);
        }
        k = k + 1;
        assert(out@.map_values(|s: String| s@) =~= spec_which_candidates(path_var@, bin@).take(
            k as int,
        ));
    }
    assert(spec_which_candidates(path_var@, bin@).take(k as int) =~= spec_which_candidates(
        path_var@,
        bin@,
    ));
    out
}

} // verus!
