//! Manifest model and validator.
//!
//! An extension declares its identity and contributions in a manifest
//! document. A manifest is either fully valid or rejected as a whole:
//! validation is total, checks every field, and batches all violations
//! into one error value.

use vstd::prelude::*;
use vstd::string::StrSliceExecFns;
use crate::text::chars_of;

verus! {

#[derive(Debug, Clone, PartialEq, Eq)]
pub struct ExtensionManifest {
    /// Unique identifier for the extension: a lowercase slug.
    pub name: String,
    /// Human-friendly label.
    pub title: String,
    /// Semantic version, kept as the declared version text.
    pub version: String,
    /// Publisher identifier: lowercase letters and digits only.
    pub publisher: String,
    /// One of the accepted open-source license identifiers.
    pub license: String,
    /// Short description of what the extension does.
    pub description: String,
    /// Path to the extension icon, ending in `.png`, `.svg` or `.jpg`.
    pub icon: String,
    /// The extension's declared contributions.
    pub contributes: ContributesManifest,
}

#[derive(Debug, Clone, PartialEq, Eq)]
pub struct ContributesManifest {
    /// Commands vended by this extension; the only contribution kind
    /// that carries behavior in this core.
    pub commands: Option<Vec<CommandManifest>>,
    pub command_palettes: Option<Vec<CommandPalettesManifest>>,
    pub icons: Option<Vec<IconsManifest>>,
    pub icon_themes: Option<Vec<IconThemesManifest>>,
    pub keybindings: Option<Vec<KeybindingManifest>>,
    pub preferences: Option<Vec<PreferenceManifest>>,
    pub themes: Option<Vec<ThemesManifest>>,
    pub views: Option<Vec<ViewManifest>>,
}

#[derive(Debug, Clone, PartialEq, Eq)]
pub struct CommandManifest {
    /// Command identifier, unique within one manifest.
    pub command: String,
    pub title: String,
    pub subtitle: Option<String>,
    pub description: String,
    pub icon: Option<String>,
    pub disabled_by_default: Option<bool>,
}

#[derive(Debug, Clone, Copy, PartialEq, Eq, Structural)]
pub struct CommandPalettesManifest {}

#[derive(Debug, Clone, Copy, PartialEq, Eq, Structural)]
pub struct IconsManifest {}

#[derive(Debug, Clone, Copy, PartialEq, Eq, Structural)]
pub struct IconThemesManifest {}

#[derive(Debug, Clone, Copy, PartialEq, Eq, Structural)]
pub struct KeybindingManifest {}

#[derive(Debug, Clone, Copy, PartialEq, Eq, Structural)]
pub struct PreferenceManifest {}

#[derive(Debug, Clone, Copy, PartialEq, Eq, Structural)]
pub struct ThemesManifest {}

#[derive(Debug, Clone, Copy, PartialEq, Eq, Structural)]
pub struct ViewManifest {}

/// The closed set of accepted license identifiers.
#[derive(Debug, Clone, Copy, PartialEq, Eq, Structural)]
pub enum LicenseManifest {
    Apache2_0,
    Bsd2Clause,
    Bsd3Clause,
    Gpl2_0,
    Gpl3_0,
    Isc,
    Lgpl2_0,
    Lgpl3_0,
    Mit,
}

/// One field constraint violated by a manifest. Command violations
/// carry the index of the offending entry in `contributes.commands`.
#[derive(Debug, Clone, Copy, PartialEq, Eq, Structural)]
pub enum ManifestViolation {
    NameInvalid,
    TitleInvalid,
    VersionInvalid,
    PublisherInvalid,
    LicenseInvalid,
    DescriptionInvalid,
    IconInvalid,
    TooManyCommands,
    CommandInvalid(usize),
    DuplicateCommandId(usize),
}

#[derive(Debug, Clone, PartialEq, Eq)]
pub enum ManifestError {
    /// The manifest document is absent.
    NotFound,
    /// The document is not a JSON manifest document.
    Malformed,
    /// The document parsed, but some fields violate their constraints;
    /// all violations are reported together.
    Invalid(Vec<ManifestViolation>),
}

pub open spec fn spec_lower_alnum(c: char) -> bool {
    (97 <= c as u32 && c as u32 <= 122) || (48 <= c as u32 && c as u32 <= 57)
}

pub open spec fn spec_upper_alpha(c: char) -> bool {
    65 <= c as u32 && c as u32 <= 90
}

pub open spec fn spec_digit(c: char) -> bool {
    48 <= c as u32 && c as u32 <= 57
}

pub open spec fn spec_name_char(c: char) -> bool {
    spec_lower_alnum(c) || c == '-'
}

/// `name`: 3 to 255 characters of `[a-z0-9-]`, first and last `[a-z0-9]`.
pub open spec fn spec_name_ok(s: Seq<char>) -> bool {
    &&& 3 <= s.len() <= 255
    &&& forall|i: int| 0 <= i < s.len() ==> spec_name_char(#[trigger] s[i])
    &&& spec_lower_alnum(s[0])
    &&& spec_lower_alnum(s[s.len() - 1])
}

/// `title` and command titles/subtitles: 2 to 255 characters.
pub open spec fn spec_title_ok(s: Seq<char>) -> bool {
    2 <= s.len() <= 255
}

/// `publisher`: 3 to 255 characters of `[a-z0-9]`.
pub open spec fn spec_publisher_ok(s: Seq<char>) -> bool {
    &&& 3 <= s.len() <= 255
    &&& forall|i: int| 0 <= i < s.len() ==> spec_lower_alnum(#[trigger] s[i])
}

/// `description`: 12 to 2048 characters.
pub open spec fn spec_description_ok(s: Seq<char>) -> bool {
    12 <= s.len() <= 2048
}

/// Icon paths end in `.png`, `.svg` or `.jpg`.
pub open spec fn spec_icon_ok(s: Seq<char>) -> bool {
    &&& s.len() >= 4
    &&& {
        let ext = s.subrange(s.len() - 4, s.len() as int);
        ext == ".png"@ || ext == ".svg"@ || ext == ".jpg"@
    }
}

/// A decimal numeral of at most 19 digits without a leading zero.
pub open spec fn spec_numeral(t: Seq<char>) -> bool {
    &&& 1 <= t.len() <= 19
    &&& forall|i: int| 0 <= i < t.len() ==> spec_digit(#[trigger] t[i])
    &&& (t[0] != '0' || t.len() == 1)
}

/// Index of the first `'.'` in `s` at or after `k`, or `s.len()`.
pub open spec fn spec_first_dot(s: Seq<char>, k: int) -> int
    decreases s.len() - k,
{
    if k < 0 || k >= s.len() {
        s.len() as int
    } else if s[k] == '.' {
        k
    } else {
        spec_first_dot(s, k + 1)
    }
}

/// Index of the first non-digit in `s` at or after `k`, or `s.len()`.
pub open spec fn spec_first_non_digit(s: Seq<char>, k: int) -> int
    decreases s.len() - k,
{
    if k < 0 || k >= s.len() {
        s.len() as int
    } else if !spec_digit(s[k]) {
        k
    } else {
        spec_first_non_digit(s, k + 1)
    }
}

/// Index of the first `'+'` in `s` at or after `k`, or `s.len()`.
pub open spec fn spec_first_plus(s: Seq<char>, k: int) -> int
    decreases s.len() - k,
{
    if k < 0 || k >= s.len() {
        s.len() as int
    } else if s[k] == '+' {
        k
    } else {
        spec_first_plus(s, k + 1)
    }
}

/// Characters allowed in pre-release and build identifiers.
pub open spec fn spec_ident_char(c: char) -> bool {
    spec_digit(c) || spec_upper_alpha(c) || (97 <= c as u32 && c as u32 <= 122) || c == '-'
}

/// One pre-release identifier: nonempty, alphanumeric or hyphen, and
/// a purely numeric identifier carries no leading zero.
pub open spec fn spec_pre_id_ok(t: Seq<char>) -> bool {
    &&& t.len() >= 1
    &&& forall|i: int| 0 <= i < t.len() ==> spec_ident_char(#[trigger] t[i])
    &&& ((forall|i: int| 0 <= i < t.len() ==> spec_digit(#[trigger] t[i])) ==> (t[0] != '0'
        || t.len() == 1))
}

/// One build identifier: nonempty, alphanumeric or hyphen.
pub open spec fn spec_build_id_ok(t: Seq<char>) -> bool {
    &&& t.len() >= 1
    &&& forall|i: int| 0 <= i < t.len() ==> spec_ident_char(#[trigger] t[i])
}

/// Dot-separated identifiers; `pre` selects the pre-release rule.
pub open spec fn spec_ids_ok(t: Seq<char>, pre: bool) -> bool
    decreases t.len(),
{
    let d = spec_first_dot(t, 0);
    let seg_ok = if pre {
        spec_pre_id_ok(t.subrange(0, d))
    } else {
        spec_build_id_ok(t.subrange(0, d))
    };
    if 0 <= d < t.len() {
        seg_ok && spec_ids_ok(t.subrange(d + 1, t.len() as int), pre)
    } else {
        seg_ok
    }
}

/// `version`: semantic-version syntax. Three numerals split at the
/// first two dots, the patch numeral running to the first non-digit;
/// then an optional `-` pre-release (dot-separated identifiers,
/// numeric ones without leading zeros) and an optional `+` build
/// part (dot-separated identifiers). Numerals are capped at 19
/// digits so their values fit a 64-bit machine word.
pub open spec fn spec_version_ok(s: Seq<char>) -> bool {
    let i = spec_first_dot(s, 0);
    let j = spec_first_dot(s, i + 1);
    let e = spec_first_non_digit(s, j + 1);
    &&& i < s.len()
    &&& j < s.len()
    &&& spec_numeral(s.subrange(0, i))
    &&& spec_numeral(s.subrange(i + 1, j))
    &&& spec_numeral(s.subrange(j + 1, e))
    &&& if e >= s.len() {
        true
    } else if s[e] == '-' {
        let b = spec_first_plus(s, e + 1);
        &&& spec_ids_ok(s.subrange(e + 1, b), true)
        &&& (b < s.len() ==> spec_ids_ok(s.subrange(b + 1, s.len() as int), false))
    } else if s[e] == '+' {
        spec_ids_ok(s.subrange(e + 1, s.len() as int), false)
    } else {
        false
    }
}

pub open spec fn spec_license_of(s: Seq<char>) -> Option<LicenseManifest> {
    if s == "Apache-2.0"@ {
        Some(LicenseManifest::Apache2_0)
    } else if s == "BSD-2-Clause"@ {
        Some(LicenseManifest::Bsd2Clause)
    } else if s == "BSD-3-Clause"@ {
        Some(LicenseManifest::Bsd3Clause)
    } else if s == "GPL-2.0-only"@ {
        Some(LicenseManifest::Gpl2_0)
    } else if s == "GPL-3.0-only"@ {
        Some(LicenseManifest::Gpl3_0)
    } else if s == "ISC"@ {
        Some(LicenseManifest::Isc)
    } else if s == "LGPL-2.0-only"@ {
        Some(LicenseManifest::Lgpl2_0)
    } else if s == "LGPL-3.0-only"@ {
        Some(LicenseManifest::Lgpl3_0)
    } else if s == "MIT"@ {
        Some(LicenseManifest::Mit)
    } else {
        None
    }
}

pub open spec fn spec_license_ok(s: Seq<char>) -> bool {
    spec_license_of(s) is Some
}

pub open spec fn spec_id_start_char(c: char) -> bool {
    spec_lower_alnum(c) || c == '-' || c == '~'
}

pub open spec fn spec_id_char(c: char) -> bool {
    spec_lower_alnum(c) || spec_upper_alpha(c) || c == '-' || c == '.' || c == '_' || c == '~'
}

/// Command ids: 2 to 255 characters, `[a-z0-9-~]` first, then
/// `[a-zA-Z0-9-._~]`.
pub open spec fn spec_command_id_ok(s: Seq<char>) -> bool {
    &&& 2 <= s.len() <= 255
    &&& spec_id_start_char(s[0])
    &&& forall|i: int| 1 <= i < s.len() ==> spec_id_char(#[trigger] s[i])
}

pub open spec fn spec_opt_title_ok(o: Option<String>) -> bool {
    match o {
        None => true,
        Some(s) => spec_title_ok(s@),
    }
}

pub open spec fn spec_opt_icon_ok(o: Option<String>) -> bool {
    match o {
        None => true,
        Some(s) => spec_icon_ok(s@),
    }
}

/// Every field constraint of one command entry.
pub open spec fn spec_cmd_ok(c: CommandManifest) -> bool {
    &&& spec_command_id_ok(c.command@)
    &&& spec_title_ok(c.title@)
    &&& spec_opt_title_ok(c.subtitle)
    &&& spec_description_ok(c.description@)
    &&& spec_opt_icon_ok(c.icon)
}

/// Entry `i` repeats a command id declared by an earlier entry.
pub open spec fn spec_dup_at(cmds: Seq<CommandManifest>, i: int) -> bool {
    exists|j: int| 0 <= j < i && (#[trigger] cmds[j]).command@ == cmds[i].command@
}

pub open spec fn viol_if(b: bool, v: ManifestViolation) -> Seq<ManifestViolation> {
    if b {
        seq![v]
    } else {
        Seq::empty()
    }
}

/// Violations of the top-level scalar fields, in field order.
pub open spec fn spec_head_violations(m: ExtensionManifest) -> Seq<ManifestViolation> {
    viol_if(!spec_name_ok(m.name@), ManifestViolation::NameInvalid)
        + viol_if(!spec_title_ok(m.title@), ManifestViolation::TitleInvalid)
        + viol_if(!spec_version_ok(m.version@), ManifestViolation::VersionInvalid)
        + viol_if(!spec_publisher_ok(m.publisher@), ManifestViolation::PublisherInvalid)
        + viol_if(!spec_license_ok(m.license@), ManifestViolation::LicenseInvalid)
        + viol_if(!spec_description_ok(m.description@), ManifestViolation::DescriptionInvalid)
        + viol_if(!spec_icon_ok(m.icon@), ManifestViolation::IconInvalid)
}

/// Violations of the command entries from index `i` on, in order.
pub open spec fn spec_cmd_violations(cmds: Seq<CommandManifest>, i: int) -> Seq<ManifestViolation>
    decreases cmds.len() - i,
{
    if i < 0 || i >= cmds.len() {
        Seq::empty()
    } else {
        viol_if(!spec_cmd_ok(cmds[i]), ManifestViolation::CommandInvalid(i as usize))
            + viol_if(spec_dup_at(cmds, i), ManifestViolation::DuplicateCommandId(i as usize))
            + spec_cmd_violations(cmds, i + 1)
    }
}

pub open spec fn spec_commands_violations(m: ExtensionManifest) -> Seq<ManifestViolation> {
    match m.contributes.commands {
        None => Seq::empty(),
        Some(v) => viol_if(v@.len() > 100, ManifestViolation::TooManyCommands)
            + spec_cmd_violations(v@, 0),
    }
}

/// Every constraint violated by `m`, in checking order. A manifest is
/// valid exactly when this sequence is empty.
pub open spec fn spec_violations(m: ExtensionManifest) -> Seq<ManifestViolation> {
    spec_head_violations(m) + spec_commands_violations(m)
}

pub open spec fn spec_manifest_valid(m: ExtensionManifest) -> bool {
    spec_violations(m).len() == 0
}

fn char_is_lower_alnum(c: char) -> (b: bool)
    ensures
        b == spec_lower_alnum(c),
{
    let u = c as u32;
    (97 <= u && u <= 122) || (48 <= u && u <= 57)
}

fn char_is_digit(c: char) -> (b: bool)
    ensures
        b == spec_digit(c),
{
    let u = c as u32;
    48 <= u && u <= 57
}

fn char_is_name(c: char) -> (b: bool)
    ensures
        b == spec_name_char(c),
{
    char_is_lower_alnum(c) || c == '-'
}

fn char_is_id_start(c: char) -> (b: bool)
    ensures
        b == spec_id_start_char(c),
{
    char_is_lower_alnum(c) || c == '-' || c == '~'
}

fn char_is_id(c: char) -> (b: bool)
    ensures
        b == spec_id_char(c),
{
    let u = c as u32;
    char_is_lower_alnum(c) || (65 <= u && u <= 90) || c == '-' || c == '.' || c == '_' || c == '~'
}

fn char_is_ident(c: char) -> (b: bool)
    ensures
        b == spec_ident_char(c),
{
    let u = c as u32;
    char_is_digit(c) || (65 <= u && u <= 90) || (97 <= u && u <= 122) || c == '-'
}

fn len_between(s: &str, lo: usize, hi: usize) -> (b: bool)
    ensures
        b == (lo <= s@.len() && s@.len() <= hi),
{
    let n = s.unicode_len();
    lo <= n && n <= hi
}

pub fn check_name(s: &str) -> (b: bool)
    ensures
        b == spec_name_ok(s@),
{
    let v = chars_of(s);
    let n = v.len();
    if n < 3 || n > 255 {
        return false;
    }
    let mut i: usize = 0;
    let mut ok = true;
    while i < n
        invariant
            n == v@.len(),
            v@ == s@,
            i <= n,
            ok == (forall|k: int| 0 <= k < i ==> spec_name_char(#[trigger] s@[k])),
        decreases n - i,
    {
        if !char_is_name(v[i]) {
            ok = false;
        }
        i += 1;
    }
    ok && char_is_lower_alnum(v[0]) && char_is_lower_alnum(v[n - 1])
}

pub fn check_publisher(s: &str) -> (b: bool)
    ensures
        b == spec_publisher_ok(s@),
{
    let v = chars_of(s);
    let n = v.len();
    if n < 3 || n > 255 {
        return false;
    }
    let mut i: usize = 0;
    let mut ok = true;
    while i < n
        invariant
            n == v@.len(),
            v@ == s@,
            i <= n,
            ok == (forall|k: int| 0 <= k < i ==> spec_lower_alnum(#[trigger] s@[k])),
        decreases n - i,
    {
        if !char_is_lower_alnum(v[i]) {
            ok = false;
        }
        i += 1;
    }
    ok
}

pub fn check_icon(s: &str) -> (b: bool)
    ensures
        b == spec_icon_ok(s@),
{
    let v = chars_of(s);
    let n = v.len();
    if n < 4 {
        return false;
    }
    let dot = v[n - 4];
    let c1 = v[n - 3];
    let c2 = v[n - 2];
    let c3 = v[n - 1];
    let png = dot == '.' && c1 == 'p' && c2 == 'n' && c3 == 'g';
    let svg = dot == '.' && c1 == 's' && c2 == 'v' && c3 == 'g';
    let jpg = dot == '.' && c1 == 'j' && c2 == 'p' && c3 == 'g';
    proof {
        reveal_strlit(".png");
        reveal_strlit(".svg");
        reveal_strlit(".jpg");
        let ext = s@.subrange(s@.len() - 4, s@.len() as int);
        assert(ext[0] == s@[s@.len() - 4]);
        assert(ext[1] == s@[s@.len() - 3]);
        assert(ext[2] == s@[s@.len() - 2]);
        assert(ext[3] == s@[s@.len() - 1]);
        if png {
            assert(ext =~= ".png"@);
        }
        if svg {
            assert(ext =~= ".svg"@);
        }
        if jpg {
            assert(ext =~= ".jpg"@);
        }
    }
    png || svg || jpg
}

proof fn lemma_first_dot(s: Seq<char>, from: int, i: int)
    requires
        0 <= from <= i <= s.len(),
        forall|k: int| from <= k < i ==> s[k] != '.',
        i == s.len() || s[i] == '.',
    ensures
        spec_first_dot(s, from) == i,
    decreases i - from,
{
    if from < i {
        lemma_first_dot(s, from + 1, i);
    }
}

proof fn lemma_first_non_digit(s: Seq<char>, from: int, i: int)
    requires
        0 <= from <= i <= s.len(),
        forall|k: int| from <= k < i ==> spec_digit(#[trigger] s[k]),
        i == s.len() || !spec_digit(s[i]),
    ensures
        spec_first_non_digit(s, from) == i,
    decreases i - from,
{
    if from < i {
        lemma_first_non_digit(s, from + 1, i);
    }
}

proof fn lemma_first_plus(s: Seq<char>, from: int, i: int)
    requires
        0 <= from <= i <= s.len(),
        forall|k: int| from <= k < i ==> s[k] != '+',
        i == s.len() || s[i] == '+',
    ensures
        spec_first_plus(s, from) == i,
    decreases i - from,
{
    if from < i {
        lemma_first_plus(s, from + 1, i);
    }
}

/// Checks one pre-release or build identifier.
fn check_id(v: &Vec<char>, from: usize, to: usize, pre: bool) -> (b: bool)
    requires
        from <= to <= v@.len(),
    ensures
        b == if pre {
            spec_pre_id_ok(v@.subrange(from as int, to as int))
        } else {
            spec_build_id_ok(v@.subrange(from as int, to as int))
        },
{
    let ghost t = v@.subrange(from as int, to as int);
    if to == from {
        return false;
    }
    let mut i: usize = from;
    let mut all_ident = true;
    let mut all_digit = true;
    while i < to
        invariant
            from <= i <= to <= v@.len(),
            all_ident == (forall|k: int| from <= k < i ==> spec_ident_char(#[trigger] v@[k])),
            all_digit == (forall|k: int| from <= k < i ==> spec_digit(#[trigger] v@[k])),
        decreases to - i,
    {
        if !char_is_ident(v[i]) {
            all_ident = false;
        }
        if !char_is_digit(v[i]) {
            all_digit = false;
        }
        i += 1;
    }
    let lead = all_digit && v[from] == '0' && to - from != 1;
    proof {
        assert(forall|k: int| 0 <= k < t.len() ==> #[trigger] t[k] == v@[from + k]);
        assert(forall|k: int| from <= k < to ==> #[trigger] v@[k] == t[k - from]);
    }
    if pre {
        all_ident && !lead
    } else {
        all_ident
    }
}

/// Checks a dot-separated identifier list.
#[verifier::rlimit(60)]
fn check_ids(v: &Vec<char>, from: usize, to: usize, pre: bool) -> (b: bool)
    requires
        from <= to <= v@.len(),
    ensures
        b == spec_ids_ok(v@.subrange(from as int, to as int), pre),
{
    let vlen = v.len();
    let mut cur: usize = from;
    loop
        invariant
            from <= cur <= to <= v@.len(),
            vlen == v@.len(),
            spec_ids_ok(v@.subrange(from as int, to as int), pre) == spec_ids_ok(
                v@.subrange(cur as int, to as int),
                pre,
            ),
        decreases to - cur,
    {
        let ghost t = v@.subrange(cur as int, to as int);
        let mut d: usize = cur;
        while d < to && v[d] != '.'
            invariant
                cur <= d <= to <= v@.len(),
                forall|k: int| cur <= k < d ==> v@[k] != '.',
            decreases to - d,
        {
            d += 1;
        }
        proof {
            assert(forall|k: int| 0 <= k < t.len() ==> #[trigger] t[k] == v@[cur + k]);
            assert forall|k: int| 0 <= k < d - cur implies #[trigger] t[k] != '.' by {
                assert(t[k] == v@[cur + k]);
            }
            lemma_first_dot(t, 0, d - cur);
            assert(t.subrange(0, d - cur) =~= v@.subrange(cur as int, d as int));
        }
        let seg_ok = check_id(v, cur, d, pre);
        if !seg_ok {
            return false;
        }
        if d == to {
            return true;
        }
        proof {
            assert(t.subrange(d - cur + 1, t.len() as int) =~= v@.subrange(
                d as int + 1,
                to as int,
            ));
        }
        cur = d + 1;
    }
}

fn check_numeral(v: &Vec<char>, from: usize, to: usize) -> (b: bool)
    requires
        from <= to <= v@.len(),
    ensures
        b == spec_numeral(v@.subrange(from as int, to as int)),
{
    let ghost t = v@.subrange(from as int, to as int);
    let len = to - from;
    if len < 1 || len > 19 {
        return false;
    }
    let mut i: usize = from;
    let mut ok = true;
    while i < to
        invariant
            from <= i <= to <= v@.len(),
            ok == (forall|k: int| from <= k < i ==> spec_digit(#[trigger] v@[k])),
        decreases to - i,
    {
        if !char_is_digit(v[i]) {
            ok = false;
        }
        i += 1;
    }
    let lead = v[from] == '0' && len != 1;
    proof {
        assert(forall|k: int| 0 <= k < t.len() ==> #[trigger] t[k] == v@[from + k]);
        assert(forall|k: int| from <= k < to ==> #[trigger] v@[k] == t[k - from]);
    }
    ok && !lead
}

pub fn check_version(s: &str) -> (b: bool)
    ensures
        b == spec_version_ok(s@),
{
    let v = chars_of(s);
    let n = v.len();
    let mut i: usize = 0;
    while i < n && v[i] != '.'
        invariant
            n == v@.len(),
            v@ == s@,
            i <= n,
            forall|k: int| 0 <= k < i ==> s@[k] != '.',
        decreases n - i,
    {
        i += 1;
    }
    proof {
        lemma_first_dot(s@, 0, i as int);
    }
    if i == n {
        return false;
    }
    let mut j: usize = i + 1;
    while j < n && v[j] != '.'
        invariant
            n == v@.len(),
            v@ == s@,
            i < n,
            i + 1 <= j <= n,
            forall|k: int| i < k < j ==> s@[k] != '.',
        decreases n - j,
    {
        j += 1;
    }
    proof {
        lemma_first_dot(s@, i as int + 1, j as int);
    }
    if j == n {
        return false;
    }
    let a = check_numeral(&v, 0, i);
    let b = check_numeral(&v, i + 1, j);
    let mut e: usize = j + 1;
    while e < n && char_is_digit(v[e])
        invariant
            n == v@.len(),
            v@ == s@,
            j + 1 <= e <= n,
            forall|k: int| j + 1 <= k < e ==> spec_digit(#[trigger] s@[k]),
        decreases n - e,
    {
        e += 1;
    }
    proof {
        lemma_first_non_digit(s@, j as int + 1, e as int);
    }
    let c = check_numeral(&v, j + 1, e);
    if !(a && b && c) {
        return false;
    }
    if e == n {
        return true;
    }
    if v[e] == '-' {
        let mut p: usize = e + 1;
        while p < n && v[p] != '+'
            invariant
                n == v@.len(),
                v@ == s@,
                e + 1 <= p <= n,
                forall|k: int| e + 1 <= k < p ==> s@[k] != '+',
            decreases n - p,
        {
            p += 1;
        }
        proof {
            lemma_first_plus(s@, e as int + 1, p as int);
        }
        let pre_ok = check_ids(&v, e + 1, p, true);
        if p == n {
            pre_ok
        } else {
            pre_ok && check_ids(&v, p + 1, n, false)
        }
    } else if v[e] == '+' {
        check_ids(&v, e + 1, n, false)
    } else {
        false
    }
}

/// Maps a license identifier to the closed license set.
pub fn license_of(s: &str) -> (r: Option<LicenseManifest>)
    ensures
        r == spec_license_of(s@),
{
    if crate::text::str_eq(s, "Apache-2.0") {
        Some(LicenseManifest::Apache2_0)
    } else if crate::text::str_eq(s, "BSD-2-Clause") {
        Some(LicenseManifest::Bsd2Clause)
    } else if crate::text::str_eq(s, "BSD-3-Clause") {
        Some(LicenseManifest::Bsd3Clause)
    } else if crate::text::str_eq(s, "GPL-2.0-only") {
        Some(LicenseManifest::Gpl2_0)
    } else if crate::text::str_eq(s, "GPL-3.0-only") {
        Some(LicenseManifest::Gpl3_0)
    } else if crate::text::str_eq(s, "ISC") {
        Some(LicenseManifest::Isc)
    } else if crate::text::str_eq(s, "LGPL-2.0-only") {
        Some(LicenseManifest::Lgpl2_0)
    } else if crate::text::str_eq(s, "LGPL-3.0-only") {
        Some(LicenseManifest::Lgpl3_0)
    } else if crate::text::str_eq(s, "MIT") {
        Some(LicenseManifest::Mit)
    } else {
        None
    }
}

pub fn check_command_id(s: &str) -> (b: bool)
    ensures
        b == spec_command_id_ok(s@),
{
    let v = chars_of(s);
    let n = v.len();
    if n < 2 || n > 255 {
        return false;
    }
    let mut i: usize = 1;
    let mut ok = true;
    while i < n
        invariant
            n == v@.len(),
            v@ == s@,
            1 <= i <= n,
            ok == (forall|k: int| 1 <= k < i ==> spec_id_char(#[trigger] s@[k])),
        decreases n - i,
    {
        if !char_is_id(v[i]) {
            ok = false;
        }
        i += 1;
    }
    ok && char_is_id_start(v[0])
}

pub fn check_command(c: &CommandManifest) -> (b: bool)
    ensures
        b == spec_cmd_ok(*c),
{
    let mut ok = check_command_id(c.command.as_str());
    ok = ok && len_between(c.title.as_str(), 2, 255);
    match &c.subtitle {
        None => {},
        Some(st) => {
            ok = ok && len_between(st.as_str(), 2, 255);
        },
    }
    ok = ok && len_between(c.description.as_str(), 12, 2048);
    match &c.icon {
        None => {},
        Some(ic) => {
            ok = ok && check_icon(ic.as_str());
        },
    }
    ok
}

fn dup_before(cmds: &Vec<CommandManifest>, i: usize) -> (b: bool)
    requires
        i < cmds@.len(),
    ensures
        b == spec_dup_at(cmds@, i as int),
{
    let mut j: usize = 0;
    let mut found = false;
    while j < i
        invariant
            j <= i < cmds@.len(),
            found == (exists|k: int|
                0 <= k < j && (#[trigger] cmds@[k]).command@ == cmds@[i as int].command@),
        decreases i - j,
    {
        if crate::text::str_eq(cmds[j].command.as_str(), cmds[i].command.as_str()) {
            found = true;
        }
        j += 1;
    }
    found
}

/// Violations of the top-level scalar fields.
fn validate_head(m: &ExtensionManifest) -> (r: Vec<ManifestViolation>)
    ensures
        r@ == spec_head_violations(*m),
{
    let mut r: Vec<ManifestViolation> = Vec::new();
    if !check_name(m.name.as_str()) {
        r.push(ManifestViolation::NameInvalid);
    }
    proof {
        assert(r@ =~= viol_if(!spec_name_ok(m.name@), ManifestViolation::NameInvalid));
    }
    let ghost v1 = r@;
    if !len_between(m.title.as_str(), 2, 255) {
        r.push(ManifestViolation::TitleInvalid);
    }
    proof {
        assert(r@ =~= v1 + viol_if(!spec_title_ok(m.title@), ManifestViolation::TitleInvalid));
    }
    let ghost v2 = r@;
    if !check_version(m.version.as_str()) {
        r.push(ManifestViolation::VersionInvalid);
    }
    proof {
        assert(r@ =~= v2 + viol_if(
            !spec_version_ok(m.version@),
            ManifestViolation::VersionInvalid,
        ));
    }
    let ghost v3 = r@;
    if !check_publisher(m.publisher.as_str()) {
        r.push(ManifestViolation::PublisherInvalid);
    }
    proof {
        assert(r@ =~= v3 + viol_if(
            !spec_publisher_ok(m.publisher@),
            ManifestViolation::PublisherInvalid,
        ));
    }
    let ghost v4 = r@;
    if license_of(m.license.as_str()).is_none() {
        r.push(ManifestViolation::LicenseInvalid);
    }
    proof {
        assert(r@ =~= v4 + viol_if(!spec_license_ok(m.license@), ManifestViolation::LicenseInvalid));
    }
    let ghost v5 = r@;
    if !len_between(m.description.as_str(), 12, 2048) {
        r.push(ManifestViolation::DescriptionInvalid);
    }
    proof {
        assert(r@ =~= v5 + viol_if(
            !spec_description_ok(m.description@),
            ManifestViolation::DescriptionInvalid,
        ));
    }
    let ghost v6 = r@;
    if !check_icon(m.icon.as_str()) {
        r.push(ManifestViolation::IconInvalid);
    }
    proof {
        assert(r@ =~= v6 + viol_if(!spec_icon_ok(m.icon@), ManifestViolation::IconInvalid));
        assert(r@ =~= spec_head_violations(*m));
    }
    r
}

/// Violations of the command entries, in order.
fn validate_commands(cmds: &Vec<CommandManifest>) -> (r: Vec<ManifestViolation>)
    ensures
        r@ == viol_if(cmds@.len() > 100, ManifestViolation::TooManyCommands)
            + spec_cmd_violations(cmds@, 0),
{
    let mut r: Vec<ManifestViolation> = Vec::new();
    if cmds.len() > 100 {
        r.push(ManifestViolation::TooManyCommands);
    }
    proof {
        assert(r@ =~= viol_if(cmds@.len() > 100, ManifestViolation::TooManyCommands));
    }
    let ghost base = r@;
    let mut idx: usize = 0;
    while idx < cmds.len()
        invariant
            idx <= cmds@.len(),
            base == viol_if(cmds@.len() > 100, ManifestViolation::TooManyCommands),
            base + spec_cmd_violations(cmds@, 0) =~= r@ + spec_cmd_violations(cmds@, idx as int),
        decreases cmds@.len() - idx,
    {
        let ghost pre = r@;
        if !check_command(&cmds[idx]) {
            r.push(ManifestViolation::CommandInvalid(idx));
        }
        if dup_before(cmds, idx) {
            r.push(ManifestViolation::DuplicateCommandId(idx));
        }
        proof {
            assert(spec_cmd_violations(cmds@, idx as int) == viol_if(
                !spec_cmd_ok(cmds@[idx as int]),
                ManifestViolation::CommandInvalid(idx),
            ) + viol_if(
                spec_dup_at(cmds@, idx as int),
                ManifestViolation::DuplicateCommandId(idx),
            ) + spec_cmd_violations(cmds@, idx as int + 1));
            assert(r@ =~= pre + viol_if(
                !spec_cmd_ok(cmds@[idx as int]),
                ManifestViolation::CommandInvalid(idx),
            ) + viol_if(
                spec_dup_at(cmds@, idx as int),
                ManifestViolation::DuplicateCommandId(idx),
            ));
            assert(base + spec_cmd_violations(cmds@, 0) =~= r@ + spec_cmd_violations(
                cmds@,
                idx as int + 1,
            ));
        }
        idx += 1;
    }
    proof {
        assert(spec_cmd_violations(cmds@, cmds@.len() as int)
            =~= Seq::<ManifestViolation>::empty());
        assert(r@ =~= base + spec_cmd_violations(cmds@, 0));
    }
    r
}

/// Checks every constraint of the manifest and reports every violation,
/// in checking order; the result is empty exactly when `m` is valid.
pub fn validate(m: &ExtensionManifest) -> (r: Vec<ManifestViolation>)
    ensures
        r@ == spec_violations(*m),
{
    let mut r = validate_head(m);
    match &m.contributes.commands {
        None => {
            proof {
                assert(spec_commands_violations(*m) =~= Seq::<ManifestViolation>::empty());
                assert(r@ =~= spec_violations(*m));
            }
        },
        Some(cmds) => {
            let mut tail = validate_commands(cmds);
            r.append(&mut tail);
            proof {
                assert(r@ =~= spec_violations(*m));
            }
        },
    }
    r
}


/// Emptiness of the command violations from `i` on means every entry
/// from `i` on is well-formed and repeats no earlier id.
proof fn lemma_cmd_violations_empty(cmds: Seq<CommandManifest>, i: int)
    requires
        0 <= i <= cmds.len(),
    ensures
        (spec_cmd_violations(cmds, i).len() == 0) <==> (forall|k: int|
            i <= k < cmds.len() ==> spec_cmd_ok(#[trigger] cmds[k]) && !spec_dup_at(cmds, k)),
    decreases cmds.len() - i,
{
    if i < cmds.len() {
        lemma_cmd_violations_empty(cmds, i + 1);
    }
}

/// A manifest is valid exactly when every one of its field rules
/// holds: the name and publisher slugs, the title and description
/// lengths, the version syntax, the license set, the icon extension,
/// and — where commands are declared — the count bound, each entry's
/// rules, and the uniqueness of its command ids.
#[verifier::rlimit(100)]
pub proof fn lemma_valid_manifest_characterized(m: ExtensionManifest)
    ensures
        spec_manifest_valid(m) <==> {
            &&& spec_name_ok(m.name@)
            &&& spec_title_ok(m.title@)
            &&& spec_version_ok(m.version@)
            &&& spec_publisher_ok(m.publisher@)
            &&& spec_license_ok(m.license@)
            &&& spec_description_ok(m.description@)
            &&& spec_icon_ok(m.icon@)
            &&& match m.contributes.commands {
                None => true,
                Some(v) => v@.len() <= 100 && (forall|k: int|
                    0 <= k < v@.len() ==> spec_cmd_ok(#[trigger] v@[k]) && !spec_dup_at(v@, k)),
            }
        },
{
    let head = spec_head_violations(m);
    let cv = spec_commands_violations(m);
    assert(spec_violations(m).len() == head.len() + cv.len());
    assert(head.len() == 0 <==> {
        &&& spec_name_ok(m.name@)
        &&& spec_title_ok(m.title@)
        &&& spec_version_ok(m.version@)
        &&& spec_publisher_ok(m.publisher@)
        &&& spec_license_ok(m.license@)
        &&& spec_description_ok(m.description@)
        &&& spec_icon_ok(m.icon@)
    }) by {
        assert(head == viol_if(!spec_name_ok(m.name@), ManifestViolation::NameInvalid) + viol_if(
            !spec_title_ok(m.title@),
            ManifestViolation::TitleInvalid,
        ) + viol_if(!spec_version_ok(m.version@), ManifestViolation::VersionInvalid) + viol_if(
            !spec_publisher_ok(m.publisher@),
            ManifestViolation::PublisherInvalid,
        ) + viol_if(!spec_license_ok(m.license@), ManifestViolation::LicenseInvalid) + viol_if(
            !spec_description_ok(m.description@),
            ManifestViolation::DescriptionInvalid,
        ) + viol_if(!spec_icon_ok(m.icon@), ManifestViolation::IconInvalid));
    }
    match m.contributes.commands {
        None => {
            assert(cv.len() == 0);
        },
        Some(v) => {
            lemma_cmd_violations_empty(v@, 0);
            assert(cv.len() == viol_if(v@.len() > 100, ManifestViolation::TooManyCommands).len()
                + spec_cmd_violations(v@, 0).len());
        },
    }
}

/// A manifest whose name breaks the slug rule always reports the
/// name violation.
pub proof fn lemma_name_violation(m: ExtensionManifest)
    requires
        !spec_name_ok(m.name@),
    ensures
        spec_violations(m).contains(ManifestViolation::NameInvalid),
{
    assert(spec_head_violations(m)[0] == ManifestViolation::NameInvalid);
    assert(spec_violations(m)[0] == ManifestViolation::NameInvalid);
    assert(spec_violations(m).len() > 0);
}

} // verus!
