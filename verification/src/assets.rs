//! The semantic catalog of visual assets and its policies: icon lookup,
//! application icon fallback and the recoloring of symbolic icons.

use crate::text::{is_blank, trim_str, trimmed};
use vstd::prelude::*;

verus! {

pub const SYSTEM_ASSET_ROOT: &'static str = "/usr/share/nexxus/assets";

pub const SYMBOLIC_PALETTE_TOKEN: &'static str = "#FFFFFF";

pub const DEFAULT_FONT_FAMILY: &'static str = "Hack";

#[derive(Clone, Copy, Debug, PartialEq, Eq, Structural)]
pub enum IconContext {
    Actions,
    Places,
    Devices,
    Status,
    Categories,
    MimeTypes,
}

/// Metadata of one symbolic icon owned by the project.
#[derive(Clone, Copy, Debug, PartialEq, Eq)]
pub struct IconSpec {
    pub name: &'static str,
    pub context: IconContext,
    pub relative_path: &'static str,
    pub tintable: bool,
}

#[derive(Clone, Copy, Debug, PartialEq, Eq)]
pub struct WallpaperSpec {
    pub name: &'static str,
    pub relative_path: &'static str,
    pub category: &'static str,
    pub width: u32,
    pub height: u32,
}

/// The names of the catalog's icons, in catalog order: the category icons
/// that applications without an icon of their own fall back to, and the
/// workspace-settings icon that the workspace bar draws.
pub open spec fn icon_names() -> Seq<Seq<char>> {
    seq![
        "applications-multimedia"@,
        "applications-development"@,
        "application-x-generic"@,
        "applications-other"@,
        "applications-graphics"@,
        "applications-internet"@,
        "applications-office"@,
        "preferences-system"@,
        "applications-system"@,
        "applications-utilities"@,
        "preferences-workspaces"@,
    ]
}

pub open spec fn names_of(s: Seq<IconSpec>) -> Seq<Seq<char>> {
    s.map_values(|i: IconSpec| i.name@)
}

/// A symbolic, tintable icon of the categories context, stored at `path`
/// under the icon root.
fn category_icon(name: &'static str, path: &'static str) -> (r: IconSpec)
    ensures
        r.name@ == name@,
        r.relative_path@ == path@,
        r.context == IconContext::Categories,
        r.tintable,
{
    IconSpec { name, context: IconContext::Categories, relative_path: path, tintable: true }
}

/// The icons of the catalog. Each is a symbolic SVG stored as
/// `categories/<name>.svg` under the icon root.
pub fn icons() -> (r: Vec<IconSpec>)
    ensures
        names_of(r@) == icon_names(),
{
    let mut v: Vec<IconSpec> = Vec::new();
    v.push(category_icon("applications-multimedia", "categories/applications-multimedia.svg"));
    v.push(category_icon("applications-development", "categories/applications-development.svg"));
    v.push(category_icon("application-x-generic", "categories/application-x-generic.svg"));
    v.push(category_icon("applications-other", "categories/applications-other.svg"));
    v.push(category_icon("applications-graphics", "categories/applications-graphics.svg"));
    v.push(category_icon("applications-internet", "categories/applications-internet.svg"));
    v.push(category_icon("applications-office", "categories/applications-office.svg"));
    v.push(category_icon("preferences-system", "categories/preferences-system.svg"));
    v.push(category_icon("applications-system", "categories/applications-system.svg"));
    v.push(category_icon("applications-utilities", "categories/applications-utilities.svg"));
    v.push(category_icon("preferences-workspaces", "categories/preferences-workspaces.svg"));
    assert(names_of(v@) =~= icon_names());
    v
}

/// The names of the catalog's wallpapers, in catalog order. This catalog
/// carries no wallpaper.
pub open spec fn wallpaper_names() -> Seq<Seq<char>> {
    Seq::empty()
}

pub open spec fn wallpaper_names_of(s: Seq<WallpaperSpec>) -> Seq<Seq<char>> {
    s.map_values(|w: WallpaperSpec| w.name@)
}

/// The wallpapers of the catalog.
pub fn wallpapers() -> (r: Vec<WallpaperSpec>)
    ensures
        wallpaper_names_of(r@) == wallpaper_names(),
{
    let v: Vec<WallpaperSpec> = Vec::new();
    assert(wallpaper_names_of(v@) =~= wallpaper_names());
    v
}

/// No two icons of the catalog share a name.
pub proof fn lemma_icon_names_unique()
    ensures
        forall|i: int, j: int|
            0 <= i < j < icon_names().len() ==> icon_names()[i] != icon_names()[j],
{
    reveal_strlit("applications-multimedia");
    reveal_strlit("applications-development");
    reveal_strlit("application-x-generic");
    reveal_strlit("applications-other");
    reveal_strlit("applications-graphics");
    reveal_strlit("applications-internet");
    reveal_strlit("applications-office");
    reveal_strlit("preferences-system");
    reveal_strlit("applications-system");
    reveal_strlit("applications-utilities");
    reveal_strlit("preferences-workspaces");
    let n = icon_names();
    assert forall|i: int, j: int| 0 <= i < j < n.len() implies n[i] != n[j] by {
        if n[i] == n[j] {
            assert(n[i].len() == n[j].len());
            assert(n[i][12] == n[j][12]);
            assert(n[i][13] == n[j][13]);
            assert(n[i][14] == n[j][14]);
            assert(n[i][0] == n[j][0]);
        }
    }
}

/// The position of the first entry with this name, or the length.
pub open spec fn name_position(s: Seq<Seq<char>>, name: Seq<char>) -> int
    decreases s.len(),
{
    if s.len() == 0 {
        0
    } else if s[0] == name {
        0
    } else {
        1 + name_position(s.drop_first(), name)
    }
}

proof fn lemma_name_position(s: Seq<Seq<char>>, name: Seq<char>, i: int)
    requires
        0 <= i <= s.len(),
        forall|j: int| 0 <= j < i ==> s[j] != name,
        i == s.len() || s[i] == name,
    ensures
        name_position(s, name) == i,
    decreases s.len(),
{
    if s.len() > 0 && i > 0 {
        assert forall|j: int| 0 <= j < i - 1 implies s.drop_first()[j] != name by {
            assert(s.drop_first()[j] == s[j + 1]);
        }
        if i < s.len() {
            assert(s.drop_first()[i - 1] == s[i]);
        }
        lemma_name_position(s.drop_first(), name, i - 1);
    }
}

fn str_matches(a: &str, b: &str) -> (r: bool)
    ensures
        r == (a@ == b@),
{
    crate::text::str_eq(a, b)
}

/// The catalog icon with this name.
pub fn icon(name: &str) -> (r: Option<IconSpec>)
    ensures
        name_position(icon_names(), name@) < icon_names().len() ==> (r matches Some(spec)
            && spec.name@ == name@),
        name_position(icon_names(), name@) >= icon_names().len() ==> r is None,
{
    let all = icons();
    let mut i: usize = 0;
    while i < all.len()
        invariant
            names_of(all@) == icon_names(),
            i <= all@.len(),
            forall|j: int| 0 <= j < i ==> (#[trigger] all@[j]).name@ != name@,
        decreases all@.len() - i,
    {
        if str_matches(all[i].name, name) {
            proof {
                assert forall|j: int| 0 <= j < i implies icon_names()[j] != name@ by {
                    assert(names_of(all@)[j] == all@[j].name@);
                }
                assert(names_of(all@)[i as int] == all@[i as int].name@);
                lemma_name_position(icon_names(), name@, i as int);
            }
            return Some(all[i]);
        }
        i = i + 1;
    }
    proof {
        assert forall|j: int| 0 <= j < i implies icon_names()[j] != name@ by {
            assert(names_of(all@)[j] == all@[j].name@);
        }
        lemma_name_position(icon_names(), name@, i as int);
    }
    None
}

/// The catalog wallpaper with this name.
pub fn wallpaper(name: &str) -> (r: Option<WallpaperSpec>)
    ensures
        name_position(wallpaper_names(), name@) < wallpaper_names().len() ==> (r matches Some(spec)
            && spec.name@ == name@),
        name_position(wallpaper_names(), name@) >= wallpaper_names().len() ==> r is None,
{
    let all = wallpapers();
    let mut i: usize = 0;
    while i < all.len()
        invariant
            wallpaper_names_of(all@) == wallpaper_names(),
            i <= all@.len(),
            forall|j: int| 0 <= j < i ==> (#[trigger] all@[j]).name@ != name@,
        decreases all@.len() - i,
    {
        if str_matches(all[i].name, name) {
            proof {
                assert forall|j: int| 0 <= j < i implies wallpaper_names()[j] != name@ by {
                    assert(wallpaper_names_of(all@)[j] == all@[j].name@);
                }
                assert(wallpaper_names_of(all@)[i as int] == all@[i as int].name@);
                lemma_name_position(wallpaper_names(), name@, i as int);
            }
            return Some(all[i]);
        }
        i = i + 1;
    }
    proof {
        assert forall|j: int| 0 <= j < i implies wallpaper_names()[j] != name@ by {
            assert(wallpaper_names_of(all@)[j] == all@[j].name@);
        }
        lemma_name_position(wallpaper_names(), name@, i as int);
    }
    None
}

/// Coarse category, used only when an application declares no icon.
#[derive(Clone, Copy, Debug, PartialEq, Eq, Structural)]
pub enum AppCategory {
    AudioVideo,
    Development,
    Education,
    Game,
    Graphics,
    Network,
    Office,
    Settings,
    System,
    Utility,
    Other,
}

/// An application icon: the declared external artwork, never tinted, or a
/// built-in symbolic fallback.
#[derive(Clone, Copy, Debug, PartialEq, Eq)]
pub enum ApplicationIcon<'a> {
    External(&'a str),
    Builtin(IconSpec),
}

/// The built-in icon standing in for a category.
pub open spec fn fallback_name(category: AppCategory) -> Seq<char> {
    match category {
        AppCategory::AudioVideo => "applications-multimedia"@,
        AppCategory::Development => "applications-development"@,
        AppCategory::Education | AppCategory::Other => "application-x-generic"@,
        AppCategory::Game => "applications-other"@,
        AppCategory::Graphics => "applications-graphics"@,
        AppCategory::Network => "applications-internet"@,
        AppCategory::Office => "applications-office"@,
        AppCategory::Settings => "preferences-system"@,
        AppCategory::System => "applications-system"@,
        AppCategory::Utility => "applications-utilities"@,
    }
}

fn fallback_icon_name(category: AppCategory) -> (r: &'static str)
    ensures
        r@ == fallback_name(category),
{
    match category {
        AppCategory::AudioVideo => "applications-multimedia",
        AppCategory::Development => "applications-development",
        AppCategory::Education | AppCategory::Other => "application-x-generic",
        AppCategory::Game => "applications-other",
        AppCategory::Graphics => "applications-graphics",
        AppCategory::Network => "applications-internet",
        AppCategory::Office => "applications-office",
        AppCategory::Settings => "preferences-system",
        AppCategory::System => "applications-system",
        AppCategory::Utility => "applications-utilities",
    }
}

proof fn lemma_fallback_in_catalog(category: AppCategory)
    ensures
        name_position(icon_names(), fallback_name(category)) < icon_names().len(),
{
    let n = icon_names();
    let f = fallback_name(category);
    let i: int = choose|i: int| 0 <= i < n.len() && n[i] == f;
    assert(exists|i: int| 0 <= i < n.len() && n[i] == f) by {
        match category {
            AppCategory::AudioVideo => assert(n[0] == f),
            AppCategory::Development => assert(n[1] == f),
            AppCategory::Education | AppCategory::Other => assert(n[2] == f),
            AppCategory::Game => assert(n[3] == f),
            AppCategory::Graphics => assert(n[4] == f),
            AppCategory::Network => assert(n[5] == f),
            AppCategory::Office => assert(n[6] == f),
            AppCategory::Settings => assert(n[7] == f),
            AppCategory::System => assert(n[8] == f),
            AppCategory::Utility => assert(n[9] == f),
        }
    }
    lemma_name_position_found(n, f, i);
}

proof fn lemma_name_position_found(s: Seq<Seq<char>>, name: Seq<char>, i: int)
    requires
        0 <= i < s.len(),
        s[i] == name,
    ensures
        name_position(s, name) <= i,
    decreases s.len(),
{
    if s[0] != name {
        assert(s.drop_first()[i - 1] == s[i]);
        lemma_name_position_found(s.drop_first(), name, i - 1);
    }
}

/// The declared icon name, trimmed, unless nothing but whitespace is declared.
pub open spec fn declared_name(declared: Option<&str>) -> Option<Seq<char>> {
    match declared {
        Some(d) => if is_blank(d@) {
            None
        } else {
            Some(trimmed(d@))
        },
        None => None,
    }
}

/// Keeps a declared external icon, trimmed, and falls back to the category's
/// built-in icon only when none is declared.
pub fn resolve_application_icon<'a>(declared: Option<&'a str>, category: AppCategory) -> (r:
    ApplicationIcon<'a>)
    ensures
        declared_name(declared) matches Some(name) ==> (r matches ApplicationIcon::External(e) && e@
            == name),
        declared_name(declared) is None ==> (r matches ApplicationIcon::Builtin(spec) && spec.name@
            == fallback_name(category)),
{
    if let Some(d) = declared {
        let name = trim_str(d);
        proof {
            crate::text::lemma_blank_iff_trims_to_empty(d@);
        }
        if name.unicode_len() > 0 {
            return ApplicationIcon::External(name);
        }
    }
    let fallback = fallback_icon_name(category);
    proof {
        lemma_fallback_in_catalog(category);
    }
    let spec = icon(fallback);
    ApplicationIcon::Builtin(spec.unwrap())
}

#[derive(Clone, Copy, Debug, PartialEq, Eq, Structural)]
pub enum RecolorError {
    InvalidUtf8,
    PaletteTokenMissing,
}

/// The diagnostic text of a recolouring error.
pub open spec fn recolor_text(e: RecolorError) -> Seq<char> {
    match e {
        RecolorError::InvalidUtf8 => "symbolic SVG is not valid UTF-8"@,
        RecolorError::PaletteTokenMissing => "symbolic SVG does not contain the Nexxus palette token"@,
    }
}

impl RecolorError {
    /// The diagnostic text of the error.
    pub fn message(self) -> (r: &'static str)
        ensures
            r@ == recolor_text(self),
    {
        match self {
            RecolorError::InvalidUtf8 => "symbolic SVG is not valid UTF-8",
            RecolorError::PaletteTokenMissing => "symbolic SVG does not contain the Nexxus palette token",
        }
    }
}

pub open spec fn continuation(b: u8) -> bool {
    0x80 <= b <= 0xBF
}

/// Well-formed UTF-8 (RFC 3629): no overlong forms, no surrogates, nothing
/// above U+10FFFF.
pub open spec fn utf8_valid(b: Seq<u8>) -> bool
    decreases b.len(),
{
    if b.len() == 0 {
        true
    } else {
        let c = b[0];
        if c < 0x80 {
            utf8_valid(b.skip(1))
        } else if 0xC2 <= c <= 0xDF {
            b.len() >= 2 && continuation(b[1]) && utf8_valid(b.skip(2))
        } else if 0xE0 <= c <= 0xEF {
            &&& b.len() >= 3
            &&& (if c == 0xE0 {
                0xA0 <= b[1] <= 0xBF
            } else if c == 0xED {
                0x80 <= b[1] <= 0x9F
            } else {
                continuation(b[1])
            })
            &&& continuation(b[2])
            &&& utf8_valid(b.skip(3))
        } else if 0xF0 <= c <= 0xF4 {
            &&& b.len() >= 4
            &&& (if c == 0xF0 {
                0x90 <= b[1] <= 0xBF
            } else if c == 0xF4 {
                0x80 <= b[1] <= 0x8F
            } else {
                continuation(b[1])
            })
            &&& continuation(b[2])
            &&& continuation(b[3])
            &&& utf8_valid(b.skip(4))
        } else {
            false
        }
    }
}

/// The length of the encoded character starting at `i`, or 0 when the bytes
/// there do not form one.
fn char_width(b: &[u8], i: usize) -> (r: usize)
    requires
        i < b@.len(),
    ensures
        r <= 4,
        r > 0 ==> i + r <= b@.len(),
        utf8_valid(b@.skip(i as int)) <==> (r > 0 && utf8_valid(b@.skip(i + r))),
{
    let s = Ghost(b@.skip(i as int));
    let n = b.len();
    let c = b[i];
    proof {
        assert(s@[0] == c);
        assert forall|k: int| 0 <= k < s@.len() implies s@[k] == b@[i + k] by {}
        assert forall|k: int| 1 <= k <= 4 && k <= s@.len() implies #[trigger] s@.skip(k) =~= b@.skip(i + k) by {}
    }
    if c < 0x80 {
        return 1;
    }
    if 0xC2 <= c && c <= 0xDF {
        if n - i >= 2 && 0x80 <= b[i + 1] && b[i + 1] <= 0xBF {
            return 2;
        }
        return 0;
    }
    if 0xE0 <= c && c <= 0xEF {
        if n - i < 3 {
            return 0;
        }
        let b1 = b[i + 1];
        let second_ok = if c == 0xE0 {
            0xA0 <= b1 && b1 <= 0xBF
        } else if c == 0xED {
            0x80 <= b1 && b1 <= 0x9F
        } else {
            0x80 <= b1 && b1 <= 0xBF
        };
        if second_ok && 0x80 <= b[i + 2] && b[i + 2] <= 0xBF {
            return 3;
        }
        return 0;
    }
    if 0xF0 <= c && c <= 0xF4 {
        if n - i < 4 {
            return 0;
        }
        let b1 = b[i + 1];
        let second_ok = if c == 0xF0 {
            0x90 <= b1 && b1 <= 0xBF
        } else if c == 0xF4 {
            0x80 <= b1 && b1 <= 0x8F
        } else {
            0x80 <= b1 && b1 <= 0xBF
        };
        if second_ok && 0x80 <= b[i + 2] && b[i + 2] <= 0xBF && 0x80 <= b[i + 3] && b[i + 3] <= 0xBF {
            return 4;
        }
        return 0;
    }
    0
}

/// Whether the bytes are well-formed UTF-8.
pub fn is_utf8(b: &[u8]) -> (r: bool)
    ensures
        r == utf8_valid(b@),
{
    let n = b.len();
    let mut i: usize = 0;
    proof {
        assert(b@.skip(0) =~= b@);
    }
    while i < n
        invariant
            n == b@.len(),
            i <= n,
            utf8_valid(b@) == utf8_valid(b@.skip(i as int)),
        decreases n - i,
    {
        let w = char_width(b, i);
        if w == 0 {
            return false;
        }
        i = i + w;
    }
    proof {
        assert(b@.skip(i as int).len() == 0);
    }
    true
}

/// The bytes of the palette token.
pub open spec fn token() -> Seq<u8> {
    seq![35u8, 70u8, 70u8, 70u8, 70u8, 70u8, 70u8]
}

pub open spec fn token_at(s: Seq<u8>, i: int) -> bool {
    0 <= i && i + 7 <= s.len() && s.subrange(i, i + 7) == token()
}

/// Every non-overlapping occurrence of the token, from the left, replaced.
pub open spec fn replace_token(s: Seq<u8>, rep: Seq<u8>) -> Seq<u8>
    decreases s.len(),
{
    if s.len() == 0 {
        s
    } else if token_at(s, 0) {
        rep + replace_token(s.skip(7), rep)
    } else {
        seq![s[0]] + replace_token(s.skip(1), rep)
    }
}

/// An uppercase hexadecimal digit.
pub open spec fn hex_digit(d: u8) -> u8 {
    if d < 10 {
        (48 + d) as u8
    } else {
        (55 + d) as u8
    }
}

/// `#RRGGBB` in uppercase hexadecimal.
pub open spec fn color_bytes(rgb: Seq<u8>) -> Seq<u8> {
    seq![
        35u8,
        hex_digit(rgb[0] / 16),
        hex_digit(rgb[0] % 16),
        hex_digit(rgb[1] / 16),
        hex_digit(rgb[1] % 16),
        hex_digit(rgb[2] / 16),
        hex_digit(rgb[2] % 16),
    ]
}

fn hex(d: u8) -> (r: u8)
    requires
        d < 16,
    ensures
        r == hex_digit(d),
{
    if d < 10 {
        48 + d
    } else {
        55 + d
    }
}

fn matches_token(s: &[u8], i: usize) -> (r: bool)
    ensures
        r == token_at(s@, i as int),
{
    if i > s.len() || s.len() - i < 7 {
        return false;
    }
    let r = s[i] == 35 && s[i + 1] == 70 && s[i + 2] == 70 && s[i + 3] == 70 && s[i + 4] == 70 && s[i
        + 5] == 70 && s[i + 6] == 70;
    proof {
        if r {
            assert(s@.subrange(i as int, i + 7) =~= token());
        } else if s@.subrange(i as int, i + 7) == token() {
            assert(s@.subrange(i as int, i + 7)[0] == s@[i as int]);
            assert(s@.subrange(i as int, i + 7)[1] == s@[i + 1]);
            assert(s@.subrange(i as int, i + 7)[2] == s@[i + 2]);
            assert(s@.subrange(i as int, i + 7)[3] == s@[i + 3]);
            assert(s@.subrange(i as int, i + 7)[4] == s@[i + 4]);
            assert(s@.subrange(i as int, i + 7)[5] == s@[i + 5]);
            assert(s@.subrange(i as int, i + 7)[6] == s@[i + 6]);
        }
    }
    r
}

proof fn lemma_token_shift(s: Seq<u8>, i: int)
    requires
        0 <= i <= s.len(),
    ensures
        token_at(s.skip(i), 0) == token_at(s, i),
{
    if i + 7 <= s.len() {
        assert(s.skip(i).subrange(0, 7) =~= s.subrange(i, i + 7));
    }
}

/// Recolors the palette token of a symbolic SVG. Bytes that are not UTF-8
/// are refused first, then a document without the token.
pub fn recolor_symbolic_svg(svg: &[u8], rgb: [u8; 3]) -> (r: Result<Vec<u8>, RecolorError>)
    ensures
        !utf8_valid(svg@) ==> r == Err::<Vec<u8>, RecolorError>(RecolorError::InvalidUtf8),
        utf8_valid(svg@) && !(exists|i: int| token_at(svg@, i)) ==> r == Err::<Vec<u8>, RecolorError>(
            RecolorError::PaletteTokenMissing,
        ),
        utf8_valid(svg@) && (exists|i: int| token_at(svg@, i)) ==> (r matches Ok(out) && out@
            == replace_token(svg@, color_bytes(rgb@))),
{
    if !is_utf8(svg) {
        return Err(RecolorError::InvalidUtf8);
    }
    let n = svg.len();
    let mut found = false;
    let mut k: usize = 0;
    while k < n
        invariant
            n == svg@.len(),
            k <= n,
            found ==> exists|i: int| token_at(svg@, i),
            !found ==> forall|i: int| 0 <= i < k ==> !token_at(svg@, i),
        decreases n - k,
    {
        if matches_token(svg, k) {
            found = true;
        }
        k = k + 1;
    }
    if !found {
        proof {
            assert forall|i: int| !token_at(svg@, i) by {
                if 0 <= i < n {
                } else {
                }
            }
        }
        return Err(RecolorError::PaletteTokenMissing);
    }
    let mut color: Vec<u8> = Vec::new();
    color.push(35);
    color.push(hex(rgb[0] / 16));
    color.push(hex(rgb[0] % 16));
    color.push(hex(rgb[1] / 16));
    color.push(hex(rgb[1] % 16));
    color.push(hex(rgb[2] / 16));
    color.push(hex(rgb[2] % 16));
    let ghost rep = color_bytes(rgb@);
    assert(color@ =~= rep);
    let mut out: Vec<u8> = Vec::new();
    let mut i: usize = 0;
    proof {
        assert(svg@.skip(0) =~= svg@);
        assert(out@ + replace_token(svg@.skip(0), rep) =~= replace_token(svg@, rep));
    }
    while i < n
        invariant
            n == svg@.len(),
            i <= n,
            color@ == rep,
            rep.len() == 7,
            out@ + replace_token(svg@.skip(i as int), rep) == replace_token(svg@, rep),
        decreases n - i,
    {
        let ghost before = out@;
        let ghost rest = svg@.skip(i as int);
        proof {
            lemma_token_shift(svg@, i as int);
        }
        if matches_token(svg, i) {
            let mut j: usize = 0;
            while j < 7
                invariant
                    j <= 7,
                    color@ == rep,
                    rep.len() == 7,
                    out@ == before + rep.take(j as int),
                decreases 7 - j,
            {
                out.push(color[j]);
                proof {
                    assert(rep.take(j + 1) =~= rep.take(j as int).push(rep[j as int]));
                }
                j = j + 1;
            }
            proof {
                assert(rep.take(7) =~= rep);
                assert(rest.skip(7) =~= svg@.skip(i + 7));
                assert(out@ + replace_token(svg@.skip(i + 7), rep) =~= before + replace_token(rest, rep));
            }
            i = i + 7;
        } else {
            out.push(svg[i]);
            proof {
                assert(rest[0] == svg@[i as int]);
                assert(rest.skip(1) =~= svg@.skip(i + 1));
                assert(out@ + replace_token(svg@.skip(i + 1), rep) =~= before + replace_token(rest, rep));
            }
            i = i + 1;
        }
    }
    proof {
        assert(svg@.skip(n as int) =~= Seq::<u8>::empty());
        assert(out@ =~= out@ + replace_token(svg@.skip(n as int), rep));
    }
    Ok(out)
}

} // verus!
