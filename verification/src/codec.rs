//! Manifest codec.
//!
//! The manifest file is a camelCase JSON document. `serialize` prints
//! the one canonical document of a manifest value: fixed field order,
//! no whitespace, every optional field spelled out. `deserialize`
//! reads manifest documents written as ordinary JSON — the tolerant
//! grammar lives in `reader` — and on the canonical documents it is
//! proved to be the exact inverse of `serialize`: such a document
//! always parses, and printing the result reproduces the input.

use vstd::prelude::*;
use crate::manifest::{
    CommandManifest, CommandPalettesManifest, ContributesManifest, ExtensionManifest,
    IconThemesManifest, IconsManifest, KeybindingManifest, ManifestError, PreferenceManifest,
    ThemesManifest, ViewManifest,
};
use crate::text::{chars_of, string_of};

verus! {

/// How one character is written inside a JSON string: quote and
/// backslash get a backslash escape, everything else stands as is.
pub open spec fn esc_char(c: char) -> Seq<char> {
    if c == '"' || c == '\\' {
        seq!['\\', c]
    } else {
        seq![c]
    }
}

pub open spec fn esc(s: Seq<char>) -> Seq<char>
    decreases s.len(),
{
    if s.len() == 0 {
        Seq::empty()
    } else {
        esc_char(s[0]) + esc(s.drop_first())
    }
}

/// A JSON string literal: quote, escaped content, quote.
pub open spec fn jstr(s: Seq<char>) -> Seq<char> {
    seq!['"'] + esc(s) + seq!['"']
}

pub open spec fn jopt_str(o: Option<String>) -> Seq<char> {
    match o {
        None => "null"@,
        Some(s) => jstr(s@),
    }
}

pub open spec fn jopt_bool(o: Option<bool>) -> Seq<char> {
    match o {
        None => "null"@,
        Some(true) => "true"@,
        Some(false) => "false"@,
    }
}

/// `n` empty objects after the first: `,{}` each.
pub open spec fn ser_unit_more(n: nat) -> Seq<char>
    decreases n,
{
    if n == 0 {
        Seq::empty()
    } else {
        ",{}"@ + ser_unit_more((n - 1) as nat)
    }
}

/// `n` empty objects separated by commas.
pub open spec fn ser_unit_items(n: nat) -> Seq<char> {
    if n == 0 {
        Seq::empty()
    } else {
        "{}"@ + ser_unit_more((n - 1) as nat)
    }
}

/// `null` or an array of `n` empty objects.
pub open spec fn ser_opt_units(o: Option<nat>) -> Seq<char> {
    match o {
        None => "null"@,
        Some(n) => "["@ + ser_unit_items(n) + "]"@,
    }
}

/// An optional count, as the specification sees it.
pub open spec fn onat(o: Option<usize>) -> Option<nat> {
    match o {
        None => None,
        Some(n) => Some(n as nat),
    }
}

/// The length of a vector of declarative entries, if present.
pub open spec fn opt_len<T>(o: Option<Vec<T>>) -> Option<nat> {
    match o {
        None => None,
        Some(v) => Some(v@.len()),
    }
}

/// The canonical document of one command entry.
pub open spec fn ser_command(c: CommandManifest) -> Seq<char> {
    "{\"command\":"@ + jstr(c.command@) + ",\"title\":"@ + jstr(c.title@) + ",\"subtitle\":"@
        + jopt_str(c.subtitle) + ",\"description\":"@ + jstr(c.description@) + ",\"icon\":"@
        + jopt_str(c.icon) + ",\"disabledByDefault\":"@ + jopt_bool(c.disabled_by_default) + "}"@
}

pub open spec fn ser_cmds_more(s: Seq<CommandManifest>) -> Seq<char>
    decreases s.len(),
{
    if s.len() == 0 {
        Seq::empty()
    } else {
        ","@ + ser_command(s[0]) + ser_cmds_more(s.drop_first())
    }
}

pub open spec fn ser_cmds_items(s: Seq<CommandManifest>) -> Seq<char> {
    if s.len() == 0 {
        Seq::empty()
    } else {
        ser_command(s[0]) + ser_cmds_more(s.drop_first())
    }
}

pub open spec fn ser_opt_commands(o: Option<Vec<CommandManifest>>) -> Seq<char> {
    match o {
        None => "null"@,
        Some(v) => "["@ + ser_cmds_items(v@) + "]"@,
    }
}

/// The first half of the canonical contributes object.
pub open spec fn ser_contrib_a(c: ContributesManifest) -> Seq<char> {
    "{\"commands\":"@ + ser_opt_commands(c.commands) + ",\"commandPalettes\":"@ + ser_opt_units(
        opt_len(c.command_palettes),
    ) + ",\"icons\":"@ + ser_opt_units(opt_len(c.icons)) + ",\"iconThemes\":"@ + ser_opt_units(
        opt_len(c.icon_themes),
    )
}

/// The second half of the canonical contributes object.
pub open spec fn ser_contrib_b(c: ContributesManifest) -> Seq<char> {
    ",\"keybindings\":"@ + ser_opt_units(opt_len(c.keybindings)) + ",\"preferences\":"@
        + ser_opt_units(opt_len(c.preferences)) + ",\"themes\":"@ + ser_opt_units(
        opt_len(c.themes),
    ) + ",\"views\":"@ + ser_opt_units(opt_len(c.views)) + "}"@
}

pub open spec fn ser_ca1(c: ContributesManifest) -> Seq<char> {
    "{\"commands\":"@ + ser_opt_commands(c.commands) + ",\"commandPalettes\":"@ + ser_opt_units(
        opt_len(c.command_palettes),
    )
}

pub open spec fn ser_ca2(c: ContributesManifest) -> Seq<char> {
    ",\"icons\":"@ + ser_opt_units(opt_len(c.icons)) + ",\"iconThemes\":"@ + ser_opt_units(
        opt_len(c.icon_themes),
    )
}

pub open spec fn ser_cb1(c: ContributesManifest) -> Seq<char> {
    ",\"keybindings\":"@ + ser_opt_units(opt_len(c.keybindings)) + ",\"preferences\":"@
        + ser_opt_units(opt_len(c.preferences))
}

pub open spec fn ser_cb2(c: ContributesManifest) -> Seq<char> {
    ",\"themes\":"@ + ser_opt_units(opt_len(c.themes)) + ",\"views\":"@ + ser_opt_units(
        opt_len(c.views),
    ) + "}"@
}

/// The leading scalar fields of the canonical manifest document.
pub open spec fn ser_header(m: ExtensionManifest) -> Seq<char> {
    "{\"name\":"@ + jstr(m.name@) + ",\"title\":"@ + jstr(m.title@) + ",\"version\":"@ + jstr(
        m.version@,
    ) + ",\"publisher\":"@ + jstr(m.publisher@) + ",\"license\":"@ + jstr(m.license@)
        + ",\"description\":"@ + jstr(m.description@)
}

pub open spec fn ser_contributes(c: ContributesManifest) -> Seq<char> {
    ser_contrib_a(c) + ser_contrib_b(c)
}

/// The one canonical document of a manifest value.
pub open spec fn spec_ser_manifest(m: ExtensionManifest) -> Seq<char> {
    ser_header(m) + ",\"icon\":"@ + jstr(m.icon@) + ",\"contributes\":"@ + ser_contributes(
        m.contributes,
    ) + "}"@
}

/// Escaping distributes over appending one character.
proof fn lemma_esc_snoc(s: Seq<char>, c: char)
    ensures
        esc(s.push(c)) == esc(s) + esc_char(c),
    decreases s.len(),
{
    if s.len() == 0 {
        assert(s.push(c)[0] == c);
        assert(s.push(c).drop_first() =~= Seq::<char>::empty());
        assert(esc(s.push(c)) == esc_char(c) + esc(s.push(c).drop_first()));
        assert(esc(Seq::<char>::empty()) =~= Seq::<char>::empty());
        assert(esc(s.push(c)) =~= esc_char(c));
        assert(esc(s) + esc_char(c) =~= esc_char(c));
    } else {
        assert(s.push(c).drop_first() =~= s.drop_first().push(c));
        assert(s.push(c)[0] == s[0]);
        lemma_esc_snoc(s.drop_first(), c);
        assert(esc(s.push(c)) =~= esc(s) + esc_char(c));
    }
}

/// One more empty object extends the tail of the list.
proof fn lemma_unit_more_snoc(n: nat)
    ensures
        ser_unit_more(n + 1) == ser_unit_more(n) + ",{}"@,
    decreases n,
{
    if n == 0 {
        assert(ser_unit_more(1) =~= ser_unit_more(0) + ",{}"@);
    } else {
        lemma_unit_more_snoc((n - 1) as nat);
        assert(ser_unit_more(n + 1) =~= ser_unit_more(n) + ",{}"@);
    }
}

/// One more command extends the tail of the list.
proof fn lemma_cmds_more_snoc(s: Seq<CommandManifest>, c: CommandManifest)
    ensures
        ser_cmds_more(s.push(c)) == ser_cmds_more(s) + ","@ + ser_command(c),
    decreases s.len(),
{
    if s.len() == 0 {
        assert(s.push(c)[0] == c);
        assert(s.push(c).drop_first() =~= Seq::<CommandManifest>::empty());
        assert(ser_cmds_more(s.push(c)) == ","@ + ser_command(c) + ser_cmds_more(
            s.push(c).drop_first(),
        ));
        assert(ser_cmds_more(Seq::<CommandManifest>::empty()) =~= Seq::<char>::empty());
        assert(ser_cmds_more(s.push(c)) =~= ser_cmds_more(s) + ","@ + ser_command(c));
    } else {
        assert(s.push(c).drop_first() =~= s.drop_first().push(c));
        assert(s.push(c)[0] == s[0]);
        lemma_cmds_more_snoc(s.drop_first(), c);
        assert(ser_cmds_more(s.push(c)) == ","@ + ser_command(s[0]) + ser_cmds_more(
            s.drop_first().push(c),
        ));
        assert(ser_cmds_more(s.push(c)) =~= ser_cmds_more(s) + ","@ + ser_command(c));
    }
}

proof fn lemma_cmds_items_snoc(s: Seq<CommandManifest>, c: CommandManifest)
    ensures
        s.len() == 0 ==> ser_cmds_items(s.push(c)) == ser_command(c),
        s.len() > 0 ==> ser_cmds_items(s.push(c)) == ser_cmds_items(s) + ","@ + ser_command(c),
{
    if s.len() == 0 {
        assert(s.push(c)[0] == c);
        assert(s.push(c).drop_first() =~= Seq::<CommandManifest>::empty());
        assert(ser_cmds_items(s.push(c)) =~= ser_command(c));
    } else {
        assert(s.push(c)[0] == s[0]);
        assert(s.push(c).drop_first() =~= s.drop_first().push(c));
        lemma_cmds_more_snoc(s.drop_first(), c);
        assert(ser_cmds_items(s.push(c)) =~= ser_cmds_items(s) + ","@ + ser_command(c));
    }
}

/// Emits `jstr(s@)`.
fn emit_jstr(out: &mut Vec<char>, s: &str)
    ensures
        final(out)@ == old(out)@ + jstr(s@),
{
    let v = chars_of(s);
    out.push('"');
    let ghost base = out@;
    let mut i: usize = 0;
    while i < v.len()
        invariant
            i <= v@.len(),
            v@ == s@,
            out@ == base + esc(s@.take(i as int)),
        decreases v@.len() - i,
    {
        let c = v[i];
        if c == '"' || c == '\\' {
            out.push('\\');
            out.push(c);
        } else {
            out.push(c);
        }
        proof {
            lemma_esc_snoc(s@.take(i as int), s@[i as int]);
            assert(s@.take(i as int).push(s@[i as int]) =~= s@.take(i as int + 1));
            assert(out@ =~= base + esc(s@.take(i as int + 1)));
        }
        i += 1;
    }
    out.push('"');
    proof {
        assert(s@.take(s@.len() as int) =~= s@);
        assert(out@ =~= old(out)@ + jstr(s@));
    }
}

/// Emits `jopt_str(*o)`.
fn emit_opt_jstr(out: &mut Vec<char>, o: &Option<String>)
    ensures
        final(out)@ == old(out)@ + jopt_str(*o),
{
    match o {
        None => crate::text::push_str_chars(out, "null"),
        Some(s) => emit_jstr(out, s.as_str()),
    }
}

/// Emits `jopt_bool(*o)`.
fn emit_opt_bool(out: &mut Vec<char>, o: &Option<bool>)
    ensures
        final(out)@ == old(out)@ + jopt_bool(*o),
{
    match o {
        None => crate::text::push_str_chars(out, "null"),
        Some(true) => crate::text::push_str_chars(out, "true"),
        Some(false) => crate::text::push_str_chars(out, "false"),
    }
}

/// Emits `ser_opt_units(Some(n))` or `ser_opt_units(None)`.
fn emit_opt_units(out: &mut Vec<char>, o: Option<usize>)
    ensures
        final(out)@ == old(out)@ + ser_opt_units(
            match o {
                None => None,
                Some(n) => Some(n as nat),
            },
        ),
{
    let n = match o {
        None => {
            crate::text::push_str_chars(out, "null");
            return;
        },
        Some(n) => n,
    };
    crate::text::push_str_chars(out, "[");
    let ghost base = out@;
    if n > 0 {
        crate::text::push_str_chars(out, "{}");
        let mut i: usize = 1;
        while i < n
            invariant
                1 <= i <= n,
                out@ == base + "{}"@ + ser_unit_more((i - 1) as nat),
            decreases n - i,
        {
            crate::text::push_str_chars(out, ",{}");
            proof {
                lemma_unit_more_snoc((i - 1) as nat);
                assert(out@ =~= base + "{}"@ + ser_unit_more(i as nat));
            }
            i += 1;
        }
    }
    crate::text::push_str_chars(out, "]");
    proof {
        assert(out@ =~= old(out)@ + "["@ + ser_unit_items(n as nat) + "]"@);
        assert(old(out)@ + "["@ + ser_unit_items(n as nat) + "]"@ =~= old(out)@ + ser_opt_units(
            Some(n as nat),
        ));
    }
}

/// Emits `ser_command(*c)`.
fn emit_command(out: &mut Vec<char>, c: &CommandManifest)
    ensures
        final(out)@ == old(out)@ + ser_command(*c),
{
    crate::text::push_str_chars(out, "{\"command\":");
    emit_jstr(out, c.command.as_str());
    crate::text::push_str_chars(out, ",\"title\":");
    emit_jstr(out, c.title.as_str());
    crate::text::push_str_chars(out, ",\"subtitle\":");
    emit_opt_jstr(out, &c.subtitle);
    crate::text::push_str_chars(out, ",\"description\":");
    emit_jstr(out, c.description.as_str());
    crate::text::push_str_chars(out, ",\"icon\":");
    emit_opt_jstr(out, &c.icon);
    crate::text::push_str_chars(out, ",\"disabledByDefault\":");
    emit_opt_bool(out, &c.disabled_by_default);
    crate::text::push_str_chars(out, "}");
    proof {
        assert(out@ =~= old(out)@ + ser_command(*c));
    }
}

/// Emits `ser_opt_commands(*o)`.
fn emit_opt_commands(out: &mut Vec<char>, o: &Option<Vec<CommandManifest>>)
    ensures
        final(out)@ == old(out)@ + ser_opt_commands(*o),
{
    let v = match o {
        None => {
            crate::text::push_str_chars(out, "null");
            return;
        },
        Some(v) => v,
    };
    crate::text::push_str_chars(out, "[");
    let ghost base = out@;
    let mut i: usize = 0;
    while i < v.len()
        invariant
            i <= v@.len(),
            out@ == base + ser_cmds_items(v@.take(i as int)),
        decreases v@.len() - i,
    {
        if i > 0 {
            crate::text::push_str_chars(out, ",");
        }
        emit_command(out, &v[i]);
        proof {
            lemma_cmds_items_snoc(v@.take(i as int), v@[i as int]);
            assert(v@.take(i as int).push(v@[i as int]) =~= v@.take(i as int + 1));
            assert(out@ =~= base + ser_cmds_items(v@.take(i as int + 1)));
        }
        i += 1;
    }
    crate::text::push_str_chars(out, "]");
    proof {
        assert(v@.take(v@.len() as int) =~= v@);
        assert(out@ =~= old(out)@ + ser_opt_commands(*o));
    }
}

/// Prints the one canonical document of a manifest value.
pub fn serialize(m: &ExtensionManifest) -> (r: String)
    ensures
        r@ == spec_ser_manifest(*m),
{
    let mut out: Vec<char> = Vec::new();
    crate::text::push_str_chars(&mut out, "{\"name\":");
    emit_jstr(&mut out, m.name.as_str());
    crate::text::push_str_chars(&mut out, ",\"title\":");
    emit_jstr(&mut out, m.title.as_str());
    crate::text::push_str_chars(&mut out, ",\"version\":");
    emit_jstr(&mut out, m.version.as_str());
    crate::text::push_str_chars(&mut out, ",\"publisher\":");
    emit_jstr(&mut out, m.publisher.as_str());
    crate::text::push_str_chars(&mut out, ",\"license\":");
    emit_jstr(&mut out, m.license.as_str());
    crate::text::push_str_chars(&mut out, ",\"description\":");
    emit_jstr(&mut out, m.description.as_str());
    crate::text::push_str_chars(&mut out, ",\"icon\":");
    emit_jstr(&mut out, m.icon.as_str());
    crate::text::push_str_chars(&mut out, ",\"contributes\":");
    emit_contributes(&mut out, &m.contributes);
    crate::text::push_str_chars(&mut out, "}");
    proof {
        assert(out@ =~= spec_ser_manifest(*m));
    }
    string_of(&out)
}

#[verifier::rlimit(100)]
fn emit_contrib_a(out: &mut Vec<char>, c: &ContributesManifest)
    ensures
        final(out)@ == old(out)@ + ser_contrib_a(*c),
{
    crate::text::push_str_chars(out, "{\"commands\":");
    proof {
        assert(out@ =~= old(out)@ + ("{\"commands\":"@));
    }
    emit_opt_commands(out, &c.commands);
    proof {
        assert(out@ =~= old(out)@ + ("{\"commands\":"@ + ser_opt_commands(c.commands)));
    }
    crate::text::push_str_chars(out, ",\"commandPalettes\":");
    proof {
        assert(out@ =~= old(out)@ + ("{\"commands\":"@ + ser_opt_commands(c.commands) + ",\"commandPalettes\":"@));
    }
    emit_opt_units(out, opt_vec_len(&c.command_palettes));
    proof {
        assert(out@ =~= old(out)@ + ("{\"commands\":"@ + ser_opt_commands(c.commands) + ",\"commandPalettes\":"@ + ser_opt_units(opt_len(c.command_palettes))));
    }
    crate::text::push_str_chars(out, ",\"icons\":");
    proof {
        assert(out@ =~= old(out)@ + ("{\"commands\":"@ + ser_opt_commands(c.commands) + ",\"commandPalettes\":"@ + ser_opt_units(opt_len(c.command_palettes)) + ",\"icons\":"@));
    }
    emit_opt_units(out, opt_vec_len(&c.icons));
    proof {
        assert(out@ =~= old(out)@ + ("{\"commands\":"@ + ser_opt_commands(c.commands) + ",\"commandPalettes\":"@ + ser_opt_units(opt_len(c.command_palettes)) + ",\"icons\":"@ + ser_opt_units(opt_len(c.icons))));
    }
    crate::text::push_str_chars(out, ",\"iconThemes\":");
    proof {
        assert(out@ =~= old(out)@ + ("{\"commands\":"@ + ser_opt_commands(c.commands) + ",\"commandPalettes\":"@ + ser_opt_units(opt_len(c.command_palettes)) + ",\"icons\":"@ + ser_opt_units(opt_len(c.icons)) + ",\"iconThemes\":"@));
    }
    emit_opt_units(out, opt_vec_len(&c.icon_themes));
    proof {
        assert(out@ =~= old(out)@ + ("{\"commands\":"@ + ser_opt_commands(c.commands) + ",\"commandPalettes\":"@ + ser_opt_units(opt_len(c.command_palettes)) + ",\"icons\":"@ + ser_opt_units(opt_len(c.icons)) + ",\"iconThemes\":"@ + ser_opt_units(opt_len(c.icon_themes))));
    }
    proof {
        assert(out@ =~= old(out)@ + ser_contrib_a(*c));
    }
}

#[verifier::rlimit(100)]
fn emit_contrib_b(out: &mut Vec<char>, c: &ContributesManifest)
    ensures
        final(out)@ == old(out)@ + ser_contrib_b(*c),
{
    crate::text::push_str_chars(out, ",\"keybindings\":");
    proof {
        assert(out@ =~= old(out)@ + (",\"keybindings\":"@));
    }
    emit_opt_units(out, opt_vec_len(&c.keybindings));
    proof {
        assert(out@ =~= old(out)@ + (",\"keybindings\":"@ + ser_opt_units(opt_len(c.keybindings))));
    }
    crate::text::push_str_chars(out, ",\"preferences\":");
    proof {
        assert(out@ =~= old(out)@ + (",\"keybindings\":"@ + ser_opt_units(opt_len(c.keybindings)) + ",\"preferences\":"@));
    }
    emit_opt_units(out, opt_vec_len(&c.preferences));
    proof {
        assert(out@ =~= old(out)@ + (",\"keybindings\":"@ + ser_opt_units(opt_len(c.keybindings)) + ",\"preferences\":"@ + ser_opt_units(opt_len(c.preferences))));
    }
    crate::text::push_str_chars(out, ",\"themes\":");
    proof {
        assert(out@ =~= old(out)@ + (",\"keybindings\":"@ + ser_opt_units(opt_len(c.keybindings)) + ",\"preferences\":"@ + ser_opt_units(opt_len(c.preferences)) + ",\"themes\":"@));
    }
    emit_opt_units(out, opt_vec_len(&c.themes));
    proof {
        assert(out@ =~= old(out)@ + (",\"keybindings\":"@ + ser_opt_units(opt_len(c.keybindings)) + ",\"preferences\":"@ + ser_opt_units(opt_len(c.preferences)) + ",\"themes\":"@ + ser_opt_units(opt_len(c.themes))));
    }
    crate::text::push_str_chars(out, ",\"views\":");
    proof {
        assert(out@ =~= old(out)@ + (",\"keybindings\":"@ + ser_opt_units(opt_len(c.keybindings)) + ",\"preferences\":"@ + ser_opt_units(opt_len(c.preferences)) + ",\"themes\":"@ + ser_opt_units(opt_len(c.themes)) + ",\"views\":"@));
    }
    emit_opt_units(out, opt_vec_len(&c.views));
    proof {
        assert(out@ =~= old(out)@ + (",\"keybindings\":"@ + ser_opt_units(opt_len(c.keybindings)) + ",\"preferences\":"@ + ser_opt_units(opt_len(c.preferences)) + ",\"themes\":"@ + ser_opt_units(opt_len(c.themes)) + ",\"views\":"@ + ser_opt_units(opt_len(c.views))));
    }
    crate::text::push_str_chars(out, "}");
    proof {
        assert(out@ =~= old(out)@ + (",\"keybindings\":"@ + ser_opt_units(opt_len(c.keybindings)) + ",\"preferences\":"@ + ser_opt_units(opt_len(c.preferences)) + ",\"themes\":"@ + ser_opt_units(opt_len(c.themes)) + ",\"views\":"@ + ser_opt_units(opt_len(c.views)) + "}"@));
    }
    proof {
        assert(out@ =~= old(out)@ + ser_contrib_b(*c));
    }
}

fn emit_contributes(out: &mut Vec<char>, c: &ContributesManifest)
    ensures
        final(out)@ == old(out)@ + ser_contributes(*c),
{
    emit_contrib_a(out, c);
    emit_contrib_b(out, c);
    proof {
        assert(out@ =~= old(out)@ + ser_contributes(*c));
    }
}

fn opt_vec_len<T>(o: &Option<Vec<T>>) -> (r: Option<usize>)
    ensures
        r == match opt_len(*o) {
            None => None::<usize>,
            Some(n) => Some(n as usize),
        },
        opt_len(*o) == match r {
            None => None::<nat>,
            Some(n) => Some(n as nat),
        },
{
    match o {
        None => None,
        Some(v) => Some(v.len()),
    }
}


/// `seg` stands in `w` at position `i`.
pub open spec fn region_at(w: Seq<char>, i: int, seg: Seq<char>) -> bool {
    0 <= i && i + seg.len() <= w.len() && w.subrange(i, i + seg.len() as int) == seg
}

/// A region made of two parts splits into its parts.
proof fn lemma_peel(w: Seq<char>, i: int, a: Seq<char>, b: Seq<char>)
    requires
        region_at(w, i, a + b),
    ensures
        region_at(w, i, a),
        region_at(w, i + a.len(), b),
{
    assert forall|d: int| 0 <= d < a.len() implies w.subrange(i, i + a.len() as int)[d] == a[d] by {
        assert(w.subrange(i, i + a.len() as int)[d] == w[i + d]);
        assert(w[i + d] == w.subrange(i, i + (a + b).len() as int)[d]);
        assert((a + b)[d] == a[d]);
    }
    assert(w.subrange(i, i + a.len() as int) =~= a);
    assert forall|d: int|
        0 <= d < b.len() implies w.subrange(i + a.len(), i + a.len() + b.len() as int)[d]
        == b[d] by {
        assert(w.subrange(i + a.len(), i + a.len() + b.len() as int)[d] == w[i + a.len() + d]);
        assert(w[i + a.len() + d] == w.subrange(i, i + (a + b).len() as int)[a.len() + d]);
        assert((a + b)[a.len() + d] == b[d]);
    }
    assert(w.subrange(i + a.len(), i + a.len() + b.len() as int) =~= b);
}

/// Escaping splits at any position.
proof fn lemma_esc_split(t: Seq<char>, n: int)
    requires
        0 <= n <= t.len(),
    ensures
        esc(t) == esc(t.take(n)) + esc(t.skip(n)),
    decreases n,
{
    if n == 0 {
        assert(t.take(0) =~= Seq::<char>::empty());
        assert(t.skip(0) =~= t);
        assert(esc(Seq::<char>::empty()) =~= Seq::<char>::empty());
        assert(esc(t) =~= esc(t.take(0)) + esc(t.skip(0)));
    } else {
        lemma_esc_split(t.drop_first(), n - 1);
        assert(t.take(n)[0] == t[0]);
        assert(t.take(n).drop_first() =~= t.drop_first().take(n - 1));
        assert(t.skip(n) =~= t.drop_first().skip(n - 1));
        assert(esc(t.take(n)) == esc_char(t[0]) + esc(t.drop_first().take(n - 1)));
        assert(esc(t) =~= esc(t.take(n)) + esc(t.skip(n)));
    }
}

/// The characters of a string region: opening quote, escaped content,
/// closing quote.
proof fn lemma_jstr_region(w: Seq<char>, i: int, t: Seq<char>)
    requires
        region_at(w, i, jstr(t)),
    ensures
        w[i] == '"',
        w[i + 1 + esc(t).len()] == '"',
        forall|e: int| 0 <= e < esc(t).len() ==> w[i + 1 + e] == esc(t)[e],
{
    assert(jstr(t).len() == esc(t).len() + 2);
    assert forall|d: int| 0 <= d < jstr(t).len() implies w[i + d] == jstr(t)[d] by {
        assert(w.subrange(i, i + jstr(t).len() as int)[d] == w[i + d]);
    }
    assert(jstr(t)[0] == '"');
    assert(jstr(t)[1 + esc(t).len() as int] == '"');
    assert forall|e: int| 0 <= e < esc(t).len() implies w[i + 1 + e] == esc(t)[e] by {
        assert(jstr(t)[1 + e] == esc(t)[e]);
        assert(w[i + (1 + e)] == jstr(t)[1 + e]);
    }
}

/// Matches `lit` at position `i`: succeeds, consuming exactly `lit`,
/// if and only if `lit` stands there.
pub(crate) fn expect_lit(v: &Vec<char>, i: usize, lit: &str) -> (r: Option<usize>)
    requires
        i <= v@.len(),
    ensures
        r matches Some(j) ==> j == i + lit@.len() && region_at(v@, i as int, lit@),
        region_at(v@, i as int, lit@) ==> (r matches Some(j) && j == i + lit@.len()),
{
    let n = lit.unicode_len();
    if v.len() - i < n {
        return None;
    }
    let mut k: usize = 0;
    while k < n
        invariant
            k <= n,
            n == lit@.len(),
            i + n <= v@.len(),
            v@.len() <= usize::MAX,
            forall|d: int| 0 <= d < k ==> v@[i + d] == lit@[d],
        decreases n - k,
    {
        proof {
            assert(i + k < v@.len());
        }
        if v[i + k] != lit.get_char(k) {
            proof {
                if region_at(v@, i as int, lit@) {
                    assert(v@.subrange(i as int, i + lit@.len() as int)[k as int] == v@[
                        i + k as int
                    ]);
                }
            }
            return None;
        }
        k += 1;
    }
    proof {
        assert(v@.subrange(i as int, i + lit@.len() as int) =~= lit@);
    }
    Some(i + n)
}

/// Parses a JSON string written in canonical escaping. Whatever it
/// accepts stands at `i` as `jstr` of the result; when a canonical
/// string is promised at `i` it accepts exactly that string.
#[verifier::rlimit(80)]
fn parse_jstring(v: &Vec<char>, i: usize, expect: Ghost<Option<Seq<char>>>) -> (r: Option<
    (String, usize),
>)
    requires
        i <= v@.len(),
        expect@ matches Some(t) ==> region_at(v@, i as int, jstr(t)),
    ensures
        r matches Some((s, j)) ==> i < j <= v@.len() && v@.subrange(i as int, j as int) == jstr(
            s@,
        ),
        expect@ matches Some(t) ==> (r matches Some((s, j)) && s@ == t && j == i + jstr(t).len()),
{
    proof {
        if expect@ is Some {
            let t = expect@->Some_0;
            lemma_jstr_region(v@, i as int, t);
        }
    }
    if i >= v.len() {
        proof {
            if expect@ is Some {
                let t = expect@->Some_0;
                assert(jstr(t).len() >= 2);
                assert(false);
            }
        }
        return None;
    }
    if v[i] != '"' {
        proof {
            if expect@ is Some {
                assert(false);
            }
        }
        return None;
    }
    let mut acc: Vec<char> = Vec::new();
    let mut j: usize = i + 1;
    while j < v.len()
        invariant
            i + 1 <= j <= v@.len(),
            i < v@.len(),
            v@[i as int] == '"',
            v@.subrange(i as int + 1, j as int) == esc(acc@),
            expect@ matches Some(t) ==> region_at(v@, i as int, jstr(t)) && acc@.len() <= t.len()
                && acc@ == t.take(acc@.len() as int),
        decreases v@.len() - j,
    {
        let ghost n = acc@.len() as int;
        proof {
            assert(j - i - 1 == esc(acc@).len());
            if expect@ is Some {
                let t = expect@->Some_0;
                lemma_jstr_region(v@, i as int, t);
                lemma_esc_split(t, n);
                assert(esc(t.take(n)) == esc(acc@));
                if n < t.len() {
                    assert(t.skip(n)[0] == t[n]);
                    assert(t.skip(n).drop_first() =~= t.skip(n + 1));
                    assert(esc(t.skip(n)) == esc_char(t[n]) + esc(t.skip(n + 1)));
                    assert(esc(t)[esc(acc@).len() as int] == esc_char(t[n])[0]);
                    assert(v@[j as int] == esc_char(t[n])[0]);
                } else {
                    assert(acc@ == t);
                    assert(v@[j as int] == '"');
                }
            }
        }
        let c = v[j];
        if c == '"' {
            proof {
                assert(v@.subrange(i as int, j as int + 1) =~= jstr(acc@));
                if expect@ is Some {
                    let t = expect@->Some_0;
                    if n < t.len() {
                        assert(esc_char(t[n])[0] != '"');
                        assert(false);
                    }
                    assert(acc@ == t);
                }
            }
            let s = string_of(&acc);
            return Some((s, j + 1));
        } else if c == '\\' {
            proof {
                if expect@ is Some {
                    let t = expect@->Some_0;
                    assert(n < t.len());
                    assert(t[n] == '"' || t[n] == '\\') by {
                        if t[n] != '"' && t[n] != '\\' {
                            assert(esc_char(t[n])[0] == t[n]);
                            assert(false);
                        }
                    }
                    assert(esc_char(t[n]).len() == 2);
                    assert(esc(t.skip(n)).len() >= 2);
                    assert(esc(t)[esc(acc@).len() as int + 1] == esc_char(t[n])[1]);
                    assert(v@[j as int + 1] == t[n]);
                    assert(j + 2 <= i + 1 + esc(t).len());
                }
            }
            if j + 1 >= v.len() {
                proof {
                    if expect@ is Some {
                        assert(false);
                    }
                }
                return None;
            }
            let c2 = v[j + 1];
            if c2 == '"' || c2 == '\\' {
                proof {
                    lemma_esc_snoc(acc@, c2);
                }
                acc.push(c2);
                proof {
                    assert(v@.subrange(i as int + 1, j as int + 2) =~= esc(acc@));
                    if expect@ is Some {
                        let t = expect@->Some_0;
                        assert(t[n] == c2);
                        assert(t.take(n).push(c2) =~= t.take(n + 1));
                    }
                }
                j += 2;
            } else {
                proof {
                    if expect@ is Some {
                        assert(false);
                    }
                }
                return None;
            }
        } else {
            proof {
                lemma_esc_snoc(acc@, c);
            }
            acc.push(c);
            proof {
                assert(v@.subrange(i as int + 1, j as int + 1) =~= esc(acc@));
                if expect@ is Some {
                    let t = expect@->Some_0;
                    assert(t[n] == c) by {
                        if t[n] == '"' || t[n] == '\\' {
                            assert(esc_char(t[n])[0] == '\\');
                            assert(false);
                        }
                    }
                    assert(t.take(n).push(c) =~= t.take(n + 1));
                }
            }
            j += 1;
        }
    }
    proof {
        if expect@ is Some {
            let t = expect@->Some_0;
            lemma_esc_split(t, acc@.len() as int);
            assert(j - i - 1 == esc(acc@).len());
            assert(esc(acc@).len() <= esc(t).len());
            assert(j <= i + 1 + esc(t).len());
            assert(i + 2 + esc(t).len() <= v@.len());
            assert(false);
        }
    }
    None
}


/// Likeness of optional strings: same presence, same characters.
pub open spec fn opt_str_like(a: Option<String>, b: Option<String>) -> bool {
    match (a, b) {
        (None, None) => true,
        (Some(x), Some(y)) => x@ == y@,
        _ => false,
    }
}

proof fn lemma_region_first(w: Seq<char>, i: int, seg: Seq<char>)
    requires
        region_at(w, i, seg),
        seg.len() > 0,
    ensures
        w[i] == seg[0],
{
    assert(w.subrange(i, i + seg.len() as int)[0] == w[i]);
}

/// Parses `null` or a canonical JSON string.
fn parse_opt_jstr(v: &Vec<char>, i: usize, expect: Ghost<Option<Option<String>>>) -> (r: Option<
    (Option<String>, usize),
>)
    requires
        i <= v@.len(),
        expect@ matches Some(o) ==> region_at(v@, i as int, jopt_str(o)),
    ensures
        r matches Some((o2, j)) ==> i < j <= v@.len() && v@.subrange(i as int, j as int)
            == jopt_str(o2),
        expect@ matches Some(o) ==> (r matches Some((o2, j)) && opt_str_like(o2, o) && j == i
            + jopt_str(o).len()),
{
    proof {
        reveal_strlit("null");
        if expect@ is Some {
            let o = expect@->Some_0;
            if o is None {
                lemma_region_first(v@, i as int, "null"@);
            } else {
                lemma_jstr_region(v@, i as int, (o->Some_0)@);
            }
        }
    }
    if i >= v.len() {
        proof {
            if expect@ is Some {
                assert(false);
            }
        }
        return None;
    }
    let c = v[i];
    if c == 'n' {
        match expect_lit(v, i, "null") {
            None => {
                proof {
                    if expect@ is Some {
                        assert(false);
                    }
                }
                None
            },
            Some(j) => {
                proof {
                    if expect@ is Some {
                        let o = expect@->Some_0;
                        assert(o is None);
                    }
                }
                Some((None, j))
            },
        }
    } else if c == '"' {
        let ghost inner: Option<Seq<char>> = match expect@ {
            Some(Some(st)) => Some(st@),
            _ => None,
        };
        proof {
            if expect@ is Some {
                let o = expect@->Some_0;
                assert(o is Some);
            }
        }
        match parse_jstring(v, i, Ghost(inner)) {
            None => {
                proof {
                    if expect@ is Some {
                        assert(false);
                    }
                }
                None
            },
            Some((s, j)) => Some((Some(s), j)),
        }
    } else {
        proof {
            if expect@ is Some {
                assert(false);
            }
        }
        None
    }
}

/// Parses `null`, `true` or `false`.
fn parse_opt_bool(v: &Vec<char>, i: usize, expect: Ghost<Option<Option<bool>>>) -> (r: Option<
    (Option<bool>, usize),
>)
    requires
        i <= v@.len(),
        expect@ matches Some(o) ==> region_at(v@, i as int, jopt_bool(o)),
    ensures
        r matches Some((o2, j)) ==> i < j <= v@.len() && v@.subrange(i as int, j as int)
            == jopt_bool(o2),
        expect@ matches Some(o) ==> (r matches Some((o2, j)) && o2 == o && j == i + jopt_bool(
            o,
        ).len()),
{
    proof {
        reveal_strlit("null");
        reveal_strlit("true");
        reveal_strlit("false");
        if expect@ is Some {
            let o = expect@->Some_0;
            match o {
                None => lemma_region_first(v@, i as int, "null"@),
                Some(true) => lemma_region_first(v@, i as int, "true"@),
                Some(false) => lemma_region_first(v@, i as int, "false"@),
            }
        }
    }
    if i >= v.len() {
        proof {
            if expect@ is Some {
                assert(false);
            }
        }
        return None;
    }
    let c = v[i];
    if c == 'n' {
        match expect_lit(v, i, "null") {
            None => {
                proof {
                    if expect@ is Some {
                        assert(false);
                    }
                }
                None
            },
            Some(j) => Some((None, j)),
        }
    } else if c == 't' {
        match expect_lit(v, i, "true") {
            None => {
                proof {
                    if expect@ is Some {
                        assert(false);
                    }
                }
                None
            },
            Some(j) => Some((Some(true), j)),
        }
    } else if c == 'f' {
        match expect_lit(v, i, "false") {
            None => {
                proof {
                    if expect@ is Some {
                        assert(false);
                    }
                }
                None
            },
            Some(j) => Some((Some(false), j)),
        }
    } else {
        proof {
            if expect@ is Some {
                assert(false);
            }
        }
        None
    }
}

/// Tail repetition is additive.
proof fn lemma_unit_more_add(a: nat, b: nat)
    ensures
        ser_unit_more(a + b) == ser_unit_more(a) + ser_unit_more(b),
    decreases a,
{
    if a == 0 {
        assert(ser_unit_more(0 + b) =~= ser_unit_more(0) + ser_unit_more(b));
    } else {
        lemma_unit_more_add((a - 1) as nat, b);
        assert((a + b - 1) as nat == (a - 1) as nat + b);
        assert(ser_unit_more(a + b) =~= ser_unit_more(a) + ser_unit_more(b));
    }
}

/// A longer unit list extends a shorter one.
proof fn lemma_unit_items_split(k: nat, n: nat)
    requires
        1 <= k <= n,
    ensures
        ser_unit_items(n) == ser_unit_items(k) + ser_unit_more((n - k) as nat),
{
    lemma_unit_more_add((k - 1) as nat, (n - k) as nat);
    assert((n - 1) as nat == (k - 1) as nat + (n - k) as nat);
    assert(ser_unit_items(n) =~= ser_unit_items(k) + ser_unit_more((n - k) as nat));
}

/// Parses `null` or an array of empty objects, returning how many.
#[verifier::rlimit(100)]
fn parse_unit_count(v: &Vec<char>, i: usize, expect: Ghost<Option<Option<nat>>>) -> (r: Option<
    (Option<usize>, usize),
>)
    requires
        i <= v@.len(),
        expect@ matches Some(o) ==> region_at(v@, i as int, ser_opt_units(o)),
    ensures
        r matches Some((o2, j)) ==> i < j <= v@.len() && v@.subrange(i as int, j as int)
            == ser_opt_units(onat(o2)),
        expect@ matches Some(o) ==> (r matches Some((o2, j)) && onat(o2) == o && j == i
            + ser_opt_units(o).len()),
{
    proof {
        reveal_strlit("null");
        reveal_strlit("[");
        reveal_strlit("]");
        reveal_strlit("{}");
        reveal_strlit(",{}");
        if expect@ is Some {
            let o = expect@->Some_0;
            if o is None {
                lemma_region_first(v@, i as int, "null"@);
            } else {
                lemma_region_first(v@, i as int, ser_opt_units(o));
                assert(ser_opt_units(o)[0] == '[');
            }
        }
    }
    if i >= v.len() {
        proof {
            if expect@ is Some {
                assert(false);
            }
        }
        return None;
    }
    let c = v[i];
    if c == 'n' {
        return match expect_lit(v, i, "null") {
            None => {
                proof {
                    if expect@ is Some {
                        assert(false);
                    }
                }
                None
            },
            Some(j) => Some((None, j)),
        };
    }
    if c != '[' {
        proof {
            if expect@ is Some {
                assert(false);
            }
        }
        return None;
    }
    let ghost on = expect@ is Some && expect@->Some_0 is Some;
    let ghost n: nat = if on {
        expect@->Some_0->Some_0
    } else {
        0
    };
    proof {
        if on {
            assert(ser_opt_units(Some(n)) == "["@ + (ser_unit_items(n) + "]"@));
            assert(ser_opt_units(Some(n)) =~= "["@ + (ser_unit_items(n) + "]"@));
            lemma_peel(v@, i as int, "["@, ser_unit_items(n) + "]"@);
        }
        if expect@ is Some && expect@->Some_0 is None {
            assert(false);
        }
    }
    let mut j: usize = i + 1;
    // empty array
    match expect_lit(v, j, "]") {
        Some(j2) => {
            proof {
                assert(v@.subrange(i as int, j2 as int) =~= ser_opt_units(Some(0)));
                if on {
                    if n > 0 {
                        lemma_region_first(v@, j as int, ser_unit_items(n) + "]"@);
                        assert((ser_unit_items(n) + "]"@)[0] == '{');
                        assert(false);
                    }
                    assert(ser_unit_items(0 as nat) =~= Seq::<char>::empty());
                    assert(j2 == i + ser_opt_units(Some(n)).len());
                }
            }
            return Some((Some(0), j2));
        },
        None => {},
    }
    proof {
        if on {
            if n == 0 {
                assert(ser_unit_items(0 as nat) =~= Seq::<char>::empty());
                assert(region_at(v@, j as int, "]"@));
                assert(false);
            }
            assert(ser_unit_items(n) + "]"@ =~= "{}"@ + (ser_unit_more((n - 1) as nat) + "]"@));
            lemma_peel(v@, j as int, "{}"@, ser_unit_more((n - 1) as nat) + "]"@);
        }
    }
    let j1 = match expect_lit(v, j, "{}") {
        None => {
            proof {
                if on {
                    assert(false);
                }
            }
            return None;
        },
        Some(j1) => j1,
    };
    let mut count: usize = 1;
    j = j1;
    loop
        invariant
            i < j <= v@.len(),
            v@.len() <= usize::MAX,
            1 <= count,
            3 * count == j - i - 1 + 1,
            v@.subrange(i as int, j as int) == "["@ + ser_unit_items(count as nat),
            on ==> count as nat <= n && region_at(v@, i as int + 1, ser_unit_items(n) + "]"@),
            on == (expect@ is Some && expect@->Some_0 is Some),
            on ==> n == expect@->Some_0->Some_0,
            expect@ is Some ==> on,
        decreases v@.len() - j,
    {
        proof {
            reveal_strlit("null");
            reveal_strlit("[");
            reveal_strlit("]");
            reveal_strlit("{}");
            reveal_strlit(",{}");
            if on {
                if count as nat == n {
                    assert(ser_unit_items(n) + "]"@ =~= ser_unit_items(n) + "]"@);
                    lemma_peel(v@, i as int + 1, ser_unit_items(n), "]"@);
                    assert(j == i + 1 + ser_unit_items(n).len());
                    assert(region_at(v@, j as int, "]"@));
                } else {
                    lemma_unit_items_split(count as nat, n);
                    assert(ser_unit_items(n) + "]"@ =~= ser_unit_items(count as nat) + (
                    ser_unit_more((n - count) as nat) + "]"@));
                    lemma_peel(
                        v@,
                        i as int + 1,
                        ser_unit_items(count as nat),
                        ser_unit_more((n - count) as nat) + "]"@,
                    );
                    assert(ser_unit_more((n - count) as nat) + "]"@ =~= ",{}"@ + (ser_unit_more(
                        (n - count - 1) as nat,
                    ) + "]"@));
                    lemma_peel(
                        v@,
                        j as int,
                        ",{}"@,
                        ser_unit_more((n - count - 1) as nat) + "]"@,
                    );
                }
            }
        }
        match expect_lit(v, j, "]") {
            Some(j2) => {
                proof {
                    assert(v@.subrange(i as int, j2 as int) =~= ser_opt_units(
                        Some(count as nat),
                    ));
                    if on {
                        if (count as nat) < n {
                            lemma_region_first(v@, j as int, ",{}"@);
                            assert(v@[j as int] == ',');
                            assert(region_at(v@, j as int, "]"@));
                            lemma_region_first(v@, j as int, "]"@);
                            assert(v@[j as int] == ']');
                            assert(false);
                        }
                        assert(count as nat == n);
                        assert(j2 == i + ser_opt_units(Some(n)).len());
                    }
                }
                return Some((Some(count), j2));
            },
            None => {},
        }
        match expect_lit(v, j, ",{}") {
            None => {
                proof {
                    if on {
                        if count as nat == n {
                            assert(false);
                        }
                        assert(false);
                    }
                }
                return None;
            },
            Some(j2) => {
                proof {
                    lemma_unit_more_snoc((count - 1) as nat);
                    assert(v@.subrange(i as int, j2 as int) =~= "["@ + ser_unit_items(
                        (count + 1) as nat,
                    ));
                    if on {
                        if count as nat == n {
                            assert(region_at(v@, j as int, "]"@));
                            assert(false);
                        }
                    }
                }
                count = count + 1;
                j = j2;
            },
        }
    }
}

/// A vector of `n` copies of one declarative entry.
fn fill<T: Copy>(x: T, n: usize) -> (r: Vec<T>)
    ensures
        r@.len() == n,
{
    let mut r: Vec<T> = Vec::new();
    let mut k: usize = 0;
    while k < n
        invariant
            k <= n,
            r@.len() == k,
        decreases n - k,
    {
        r.push(x);
        k += 1;
    }
    r
}


/// Command tails are additive over concatenation.
proof fn lemma_cmds_more_concat(a: Seq<CommandManifest>, b: Seq<CommandManifest>)
    ensures
        ser_cmds_more(a + b) == ser_cmds_more(a) + ser_cmds_more(b),
    decreases a.len(),
{
    if a.len() == 0 {
        assert(a + b =~= b);
        assert(ser_cmds_more(a + b) =~= ser_cmds_more(a) + ser_cmds_more(b));
    } else {
        assert((a + b)[0] == a[0]);
        assert((a + b).drop_first() =~= a.drop_first() + b);
        lemma_cmds_more_concat(a.drop_first(), b);
        assert(ser_cmds_more(a + b) =~= ser_cmds_more(a) + ser_cmds_more(b));
    }
}

/// A longer command list extends a shorter prefix of it.
proof fn lemma_cmds_items_split(t: Seq<CommandManifest>, k: int)
    requires
        1 <= k <= t.len(),
    ensures
        ser_cmds_items(t) == ser_cmds_items(t.take(k)) + ser_cmds_more(t.skip(k)),
{
    assert(t.take(k)[0] == t[0]);
    assert(t.drop_first() =~= t.take(k).drop_first() + t.skip(k));
    lemma_cmds_more_concat(t.take(k).drop_first(), t.skip(k));
    assert(ser_cmds_items(t) =~= ser_cmds_items(t.take(k)) + ser_cmds_more(t.skip(k)));
}

/// Where the parser stands after `k` entries of a promised command
/// list: at the closing bracket, or at the comma before entry `k`.
#[verifier::rlimit(100)]
proof fn lemma_cmds_step(w: Seq<char>, ibase: int, t: Seq<CommandManifest>, k: int, j: int)
    requires
        region_at(w, ibase, ser_cmds_items(t) + "]"@),
        1 <= k <= t.len(),
        j == ibase + ser_cmds_items(t.take(k)).len(),
    ensures
        k == t.len() ==> region_at(w, j, "]"@),
        k < t.len() ==> region_at(w, j, ","@) && region_at(w, j + 1, ser_command(t[k])),
{
    reveal_strlit(",");
    reveal_strlit("]");
    if k == t.len() {
        assert(t.take(k) =~= t);
        assert(ser_cmds_items(t) + "]"@ =~= ser_cmds_items(t) + "]"@);
        lemma_peel(w, ibase, ser_cmds_items(t), "]"@);
    } else {
        lemma_cmds_items_split(t, k);
        assert(ser_cmds_items(t) + "]"@ =~= ser_cmds_items(t.take(k)) + (ser_cmds_more(
            t.skip(k),
        ) + "]"@));
        lemma_peel(w, ibase, ser_cmds_items(t.take(k)), ser_cmds_more(t.skip(k)) + "]"@);
        assert(t.skip(k)[0] == t[k]);
        assert(t.skip(k).drop_first() =~= t.skip(k + 1));
        assert(ser_cmds_more(t.skip(k)) + "]"@ =~= ","@ + (ser_command(t[k]) + (ser_cmds_more(
            t.skip(k + 1),
        ) + "]"@)));
        lemma_peel(w, j, ","@, ser_command(t[k]) + (ser_cmds_more(t.skip(k + 1)) + "]"@));
        lemma_peel(w, j + 1, ser_command(t[k]), ser_cmds_more(t.skip(k + 1)) + "]"@);
    }
}

/// Parses `null` or an array of command entries.
#[verifier::rlimit(100)]
fn parse_opt_commands(
    v: &Vec<char>,
    i: usize,
    expect: Ghost<Option<Option<Vec<CommandManifest>>>>,
) -> (r: Option<(Option<Vec<CommandManifest>>, usize)>)
    requires
        i <= v@.len(),
        expect@ matches Some(o) ==> region_at(v@, i as int, ser_opt_commands(o)),
    ensures
        r matches Some((o2, j)) ==> i < j <= v@.len() && v@.subrange(i as int, j as int)
            == ser_opt_commands(o2),
        expect@ matches Some(o) ==> (r matches Some((o2, j)) && j == i + ser_opt_commands(
            o,
        ).len()),
{
    proof {
        reveal_strlit("null");
        reveal_strlit("[");
        reveal_strlit("]");
        reveal_strlit(",");
        reveal_strlit("{\"command\":");
        if expect@ is Some {
            let o = expect@->Some_0;
            if o is None {
                lemma_region_first(v@, i as int, "null"@);
            } else {
                lemma_region_first(v@, i as int, ser_opt_commands(o));
                assert(ser_opt_commands(o)[0] == '[');
            }
        }
    }
    if i >= v.len() {
        proof {
            if expect@ is Some {
                assert(false);
            }
        }
        return None;
    }
    let c0 = v[i];
    if c0 == 'n' {
        return match expect_lit(v, i, "null") {
            None => {
                proof {
                    if expect@ is Some {
                        assert(false);
                    }
                }
                None
            },
            Some(j) => Some((None, j)),
        };
    }
    if c0 != '[' {
        proof {
            if expect@ is Some {
                assert(false);
            }
        }
        return None;
    }
    let ghost on = expect@ is Some && expect@->Some_0 is Some;
    let ghost t: Seq<CommandManifest> = if on {
        (expect@->Some_0->Some_0)@
    } else {
        Seq::empty()
    };
    proof {
        if on {
            assert(ser_opt_commands(expect@->Some_0) =~= "["@ + (ser_cmds_items(t) + "]"@));
            lemma_peel(v@, i as int, "["@, ser_cmds_items(t) + "]"@);
        }
        if expect@ is Some && expect@->Some_0 is None {
            assert(false);
        }
    }
    let mut j: usize = i + 1;
    match expect_lit(v, j, "]") {
        Some(j2) => {
            proof {
                assert(ser_cmds_items(Seq::<CommandManifest>::empty())
                    =~= Seq::<char>::empty());
                if on {
                    if t.len() > 0 {
                        lemma_region_first(v@, j as int, ser_cmds_items(t) + "]"@);
                        assert(ser_command(t[0])[0] == '{');
                        assert((ser_cmds_items(t) + "]"@)[0] == '{');
                        assert(false);
                    }
                }
            }
            let out: Vec<CommandManifest> = Vec::new();
            proof {
                assert(v@.subrange(i as int, j2 as int) =~= ser_opt_commands(Some(out)));
                if on {
                    assert(t.len() == 0);
                    assert(j2 == i + ser_opt_commands(expect@->Some_0).len());
                }
            }
            return Some((Some(out), j2));
        },
        None => {},
    }
    proof {
        if on {
            if t.len() == 0 {
                assert(ser_cmds_items(t) =~= Seq::<char>::empty());
                assert(region_at(v@, j as int, "]"@));
                assert(false);
            }
            assert(ser_cmds_items(t) + "]"@ =~= ser_command(t[0]) + (ser_cmds_more(
                t.drop_first(),
            ) + "]"@));
            lemma_peel(v@, j as int, ser_command(t[0]), ser_cmds_more(t.drop_first()) + "]"@);
        }
    }
    let mut out: Vec<CommandManifest> = Vec::new();
    let first = match parse_command(v, j, Ghost(if on { Some(t[0]) } else { None })) {
        None => {
            proof {
                if on {
                    assert(false);
                }
            }
            return None;
        },
        Some(p) => p,
    };
    out.push(first.0);
    proof {
        assert(v@.subrange(i as int, first.1 as int) =~= "["@ + ser_cmds_items(out@)) by {
            reveal_strlit("[");
            assert(v@.subrange(i as int, j as int) =~= "["@);
            assert(ser_cmds_more(out@.drop_first()) =~= Seq::<char>::empty());
            assert(ser_cmds_items(out@) =~= ser_command(out@[0]));
            lemma_join(
                v@,
                i as int,
                j as int,
                first.1 as int,
                "["@,
                ser_command(out@[0]),
            );
        }
        if on {
            assert(t.take(1)[0] == t[0]);
            assert(t.take(1).drop_first() =~= Seq::<CommandManifest>::empty());
            assert(ser_cmds_items(t.take(1)) =~= ser_command(t[0]));
            assert(first.1 == i + 1 + ser_cmds_items(t.take(1)).len());
        }
    }
    j = first.1;
    loop
        invariant
            i < j <= v@.len(),
            v@.len() <= usize::MAX,
            out@.len() >= 1,
            v@.subrange(i as int, j as int) == "["@ + ser_cmds_items(out@),
            on ==> out@.len() <= t.len() && region_at(
                v@,
                i as int + 1,
                ser_cmds_items(t) + "]"@,
            ) && j == i + 1 + ser_cmds_items(t.take(out@.len() as int)).len(),
            on == (expect@ is Some && expect@->Some_0 is Some),
            on ==> t == (expect@->Some_0->Some_0)@,
            expect@ is Some ==> on,
            i + 1 <= j,
        decreases v@.len() - j,
    {
        let ghost k = out@.len() as int;
        proof {
            reveal_strlit("null");
            reveal_strlit("[");
            reveal_strlit("]");
            reveal_strlit(",");
            if on {
                lemma_cmds_step(v@, i as int + 1, t, k, j as int);
                if k == t.len() {
                    assert(t.take(k) =~= t);
                    assert(j == i + 1 + ser_cmds_items(t).len());
                }
            }
        }
        match expect_lit(v, j, "]") {
            Some(j2) => {
                proof {
                    lemma_join(
                        v@,
                        i as int,
                        j as int,
                        j2 as int,
                        "["@ + ser_cmds_items(out@),
                        "]"@,
                    );
                    assert(("["@ + ser_cmds_items(out@)) + "]"@ =~= "["@ + ser_cmds_items(out@)
                        + "]"@);
                    if on {
                        if k < t.len() {
                            lemma_region_first(v@, j as int, ","@);
                            lemma_region_first(v@, j as int, "]"@);
                            assert(false);
                        }
                        assert(t.take(k) =~= t);
                        assert(j == i + 1 + ser_cmds_items(t).len());
                        assert(j2 == i + ser_opt_commands(expect@->Some_0).len());
                    }
                }
                return Some((Some(out), j2));
            },
            None => {},
        }
        let j3 = match expect_lit(v, j, ",") {
            None => {
                proof {
                    if on {
                        if k == t.len() {
                            assert(false);
                        }
                        assert(false);
                    }
                }
                return None;
            },
            Some(j3) => j3,
        };
        let item = match parse_command(
            v,
            j3,
            Ghost(if on && k < t.len() { Some(t[k]) } else { None }),
        ) {
            None => {
                proof {
                    if on {
                        if k == t.len() {
                            lemma_region_first(v@, j as int, ","@);
                            lemma_region_first(v@, j as int, "]"@);
                            assert(false);
                        }
                        assert(false);
                    }
                }
                return None;
            },
            Some(p) => p,
        };
        proof {
            if on && k == t.len() {
                lemma_region_first(v@, j as int, ","@);
                lemma_region_first(v@, j as int, "]"@);
                assert(false);
            }
        }
        let ghost pre = out@;
        out.push(item.0);
        proof {
            lemma_cmds_items_snoc(pre, item.0);
            lemma_join(v@, i as int, j as int, j3 as int, "["@ + ser_cmds_items(pre), ","@);
            lemma_join(
                v@,
                i as int,
                j3 as int,
                item.1 as int,
                ("["@ + ser_cmds_items(pre)) + ","@,
                ser_command(item.0),
            );
            assert(v@.subrange(i as int, item.1 as int) =~= "["@ + ser_cmds_items(out@));
            if on {
                lemma_cmds_items_snoc(t.take(k), t[k as int]);
                assert(t.take(k).push(t[k as int]) =~= t.take(k + 1));
                assert(ser_cmds_items(t.take(k + 1)) == ser_cmds_items(t.take(k)) + ","@
                    + ser_command(t[k as int]));
                assert(item.1 == i + 1 + ser_cmds_items(t.take(k + 1)).len());
            }
        }
        j = item.1;
    }
}

/// Joining two adjacent regions.
proof fn lemma_join(w: Seq<char>, i: int, j: int, k: int, a: Seq<char>, b: Seq<char>)
    requires
        0 <= i <= j <= k <= w.len(),
        w.subrange(i, j) == a,
        w.subrange(j, k) == b,
    ensures
        w.subrange(i, k) == a + b,
{
    assert forall|d: int| 0 <= d < k - i implies w.subrange(i, k)[d] == (a + b)[d] by {
        assert(w.subrange(i, k)[d] == w[i + d]);
        if d < j - i {
            assert(w.subrange(i, j)[d] == w[i + d]);
        } else {
            assert(w.subrange(j, k)[d - (j - i)] == w[j + (d - (j - i))]);
        }
    }
    assert(w.subrange(i, k) =~= a + b);
}



/// The command document splits into its thirteen pieces.
#[verifier::rlimit(100)]
proof fn lemma_command_reassoc(c: CommandManifest)
    ensures
        ser_command(c) == "{\"command\":"@ + (jstr(c.command@) + (",\"title\":"@ + (jstr(
            c.title@,
        ) + (",\"subtitle\":"@ + (jopt_str(c.subtitle) + (",\"description\":"@ + (jstr(
            c.description@,
        ) + (",\"icon\":"@ + (jopt_str(c.icon) + (",\"disabledByDefault\":"@ + (jopt_bool(
            c.disabled_by_default,
        ) + "}"@))))))))))),
{
    assert(ser_command(c) =~= "{\"command\":"@ + (jstr(c.command@) + (",\"title\":"@ + (jstr(
        c.title@,
    ) + (",\"subtitle\":"@ + (jopt_str(c.subtitle) + (",\"description\":"@ + (jstr(
        c.description@,
    ) + (",\"icon\":"@ + (jopt_str(c.icon) + (",\"disabledByDefault\":"@ + (jopt_bool(
        c.disabled_by_default,
    ) + "}"@))))))))))));
}

/// Parses one canonical command entry.
#[verifier::rlimit(100)]
fn parse_command(v: &Vec<char>, i: usize, expect: Ghost<Option<CommandManifest>>) -> (r: Option<
    (CommandManifest, usize),
>)
    requires
        i <= v@.len(),
        expect@ matches Some(c) ==> region_at(v@, i as int, ser_command(c)),
    ensures
        r matches Some((cm, j)) ==> i < j <= v@.len() && v@.subrange(i as int, j as int)
            == ser_command(cm),
        expect@ matches Some(c) ==> (r matches Some((cm, j)) && j == i + ser_command(c).len()),
{
    let ghost on = expect@ is Some;
    let ghost c = if on {
        expect@->Some_0
    } else {
        arbitrary()
    };
    let ghost csx12 = "}"@;
    let ghost csx11 = jopt_bool(c.disabled_by_default) + csx12;
    let ghost csx10 = ",\"disabledByDefault\":"@ + csx11;
    let ghost csx9 = jopt_str(c.icon) + csx10;
    let ghost csx8 = ",\"icon\":"@ + csx9;
    let ghost csx7 = jstr(c.description@) + csx8;
    let ghost csx6 = ",\"description\":"@ + csx7;
    let ghost csx5 = jopt_str(c.subtitle) + csx6;
    let ghost csx4 = ",\"subtitle\":"@ + csx5;
    let ghost csx3 = jstr(c.title@) + csx4;
    let ghost csx2 = ",\"title\":"@ + csx3;
    let ghost csx1 = jstr(c.command@) + csx2;
    let ghost csx0 = "{\"command\":"@ + csx1;
    proof {
        if on {
            lemma_command_reassoc(c);
            assert(ser_command(c) == csx0);
        }
    }
    proof {
        if on {
            lemma_peel(v@, i as int, "{\"command\":"@, csx1);
        }
    }
    let q0 = match expect_lit(v, i, "{\"command\":") {
        None => {
            proof {
                if on {
                    assert(false);
                }
            }
            return None;
        },
        Some(x) => x,
    };
    let ghost sofar0 = "{\"command\":"@;
    proof {
        assert(v@.subrange(i as int, q0 as int) == sofar0);
    }
    proof {
        if on {
            lemma_peel(v@, q0 as int, jstr(c.command@), csx2);
        }
    }
    let (s_cmd, q1) = match parse_jstring(v, q0, Ghost(
        if on {
            Some(c.command@)
        } else {
            None
        },
    )) {
        None => {
            proof {
                if on {
                    assert(false);
                }
            }
            return None;
        },
        Some(x) => x,
    };
    let ghost sofar1 = sofar0 + jstr(s_cmd@);
    proof {
        lemma_join(v@, i as int, q0 as int, q1 as int, sofar0, jstr(s_cmd@));
    }
    proof {
        if on {
            lemma_peel(v@, q1 as int, ",\"title\":"@, csx3);
        }
    }
    let q2 = match expect_lit(v, q1, ",\"title\":") {
        None => {
            proof {
                if on {
                    assert(false);
                }
            }
            return None;
        },
        Some(x) => x,
    };
    let ghost sofar2 = sofar1 + ",\"title\":"@;
    proof {
        lemma_join(v@, i as int, q1 as int, q2 as int, sofar1, ",\"title\":"@);
    }
    proof {
        if on {
            lemma_peel(v@, q2 as int, jstr(c.title@), csx4);
        }
    }
    let (s_title, q3) = match parse_jstring(v, q2, Ghost(
        if on {
            Some(c.title@)
        } else {
            None
        },
    )) {
        None => {
            proof {
                if on {
                    assert(false);
                }
            }
            return None;
        },
        Some(x) => x,
    };
    let ghost sofar3 = sofar2 + jstr(s_title@);
    proof {
        lemma_join(v@, i as int, q2 as int, q3 as int, sofar2, jstr(s_title@));
    }
    proof {
        if on {
            lemma_peel(v@, q3 as int, ",\"subtitle\":"@, csx5);
        }
    }
    let q4 = match expect_lit(v, q3, ",\"subtitle\":") {
        None => {
            proof {
                if on {
                    assert(false);
                }
            }
            return None;
        },
        Some(x) => x,
    };
    let ghost sofar4 = sofar3 + ",\"subtitle\":"@;
    proof {
        lemma_join(v@, i as int, q3 as int, q4 as int, sofar3, ",\"subtitle\":"@);
    }
    proof {
        if on {
            lemma_peel(v@, q4 as int, jopt_str(c.subtitle), csx6);
        }
    }
    let (o_sub, q5) = match parse_opt_jstr(v, q4, Ghost(
        if on {
            Some(c.subtitle)
        } else {
            None
        },
    )) {
        None => {
            proof {
                if on {
                    assert(false);
                }
            }
            return None;
        },
        Some(x) => x,
    };
    let ghost sofar5 = sofar4 + jopt_str(o_sub);
    proof {
        lemma_join(v@, i as int, q4 as int, q5 as int, sofar4, jopt_str(o_sub));
    }
    proof {
        if on {
            lemma_peel(v@, q5 as int, ",\"description\":"@, csx7);
        }
    }
    let q6 = match expect_lit(v, q5, ",\"description\":") {
        None => {
            proof {
                if on {
                    assert(false);
                }
            }
            return None;
        },
        Some(x) => x,
    };
    let ghost sofar6 = sofar5 + ",\"description\":"@;
    proof {
        lemma_join(v@, i as int, q5 as int, q6 as int, sofar5, ",\"description\":"@);
    }
    proof {
        if on {
            lemma_peel(v@, q6 as int, jstr(c.description@), csx8);
        }
    }
    let (s_desc, q7) = match parse_jstring(v, q6, Ghost(
        if on {
            Some(c.description@)
        } else {
            None
        },
    )) {
        None => {
            proof {
                if on {
                    assert(false);
                }
            }
            return None;
        },
        Some(x) => x,
    };
    let ghost sofar7 = sofar6 + jstr(s_desc@);
    proof {
        lemma_join(v@, i as int, q6 as int, q7 as int, sofar6, jstr(s_desc@));
    }
    proof {
        if on {
            lemma_peel(v@, q7 as int, ",\"icon\":"@, csx9);
        }
    }
    let q8 = match expect_lit(v, q7, ",\"icon\":") {
        None => {
            proof {
                if on {
                    assert(false);
                }
            }
            return None;
        },
        Some(x) => x,
    };
    let ghost sofar8 = sofar7 + ",\"icon\":"@;
    proof {
        lemma_join(v@, i as int, q7 as int, q8 as int, sofar7, ",\"icon\":"@);
    }
    proof {
        if on {
            lemma_peel(v@, q8 as int, jopt_str(c.icon), csx10);
        }
    }
    let (o_icon, q9) = match parse_opt_jstr(v, q8, Ghost(
        if on {
            Some(c.icon)
        } else {
            None
        },
    )) {
        None => {
            proof {
                if on {
                    assert(false);
                }
            }
            return None;
        },
        Some(x) => x,
    };
    let ghost sofar9 = sofar8 + jopt_str(o_icon);
    proof {
        lemma_join(v@, i as int, q8 as int, q9 as int, sofar8, jopt_str(o_icon));
    }
    proof {
        if on {
            lemma_peel(v@, q9 as int, ",\"disabledByDefault\":"@, csx11);
        }
    }
    let q10 = match expect_lit(v, q9, ",\"disabledByDefault\":") {
        None => {
            proof {
                if on {
                    assert(false);
                }
            }
            return None;
        },
        Some(x) => x,
    };
    let ghost sofar10 = sofar9 + ",\"disabledByDefault\":"@;
    proof {
        lemma_join(v@, i as int, q9 as int, q10 as int, sofar9, ",\"disabledByDefault\":"@);
    }
    proof {
        if on {
            lemma_peel(v@, q10 as int, jopt_bool(c.disabled_by_default), csx12);
        }
    }
    let (o_dbd, q11) = match parse_opt_bool(v, q10, Ghost(
        if on {
            Some(c.disabled_by_default)
        } else {
            None
        },
    )) {
        None => {
            proof {
                if on {
                    assert(false);
                }
            }
            return None;
        },
        Some(x) => x,
    };
    let ghost sofar11 = sofar10 + jopt_bool(o_dbd);
    proof {
        lemma_join(v@, i as int, q10 as int, q11 as int, sofar10, jopt_bool(o_dbd));
    }
    let q12 = match expect_lit(v, q11, "}") {
        None => {
            proof {
                if on {
                    assert(false);
                }
            }
            return None;
        },
        Some(x) => x,
    };
    let ghost sofar12 = sofar11 + "}"@;
    proof {
        lemma_join(v@, i as int, q11 as int, q12 as int, sofar11, "}"@);
    }
    let cm = CommandManifest {
        command: s_cmd,
        title: s_title,
        subtitle: o_sub,
        description: s_desc,
        icon: o_icon,
        disabled_by_default: o_dbd,
    };
    proof {
        assert(sofar12 == ser_command(cm));
        if on {
            assert(q12 == i + ser_command(c).len());
        }
    }
    Some((cm, q12))
}

/// Parses one stretch of the contributes object.
#[verifier::rlimit(100)]
fn parse_ca1(v: &Vec<char>, i: usize, expect: Ghost<Option<ContributesManifest>>) -> (r: Option<
    ((Option<Vec<CommandManifest>>, Option<usize>), usize),
>)
    requires
        i <= v@.len(),
        expect@ matches Some(c) ==> region_at(v@, i as int, ser_ca1(c)),
    ensures
        r matches Some((vals, j)) ==> i < j <= v@.len() && v@.subrange(i as int, j as int)
            == "{\"commands\":"@ + ser_opt_commands(vals.0) + ",\"commandPalettes\":"@ + ser_opt_units(onat(vals.1)),
        expect@ matches Some(c) ==> (r matches Some((vals, j)) && j == i + ser_ca1(c).len()),
{
    let ghost on = expect@ is Some;
    let ghost c = if on {
        expect@->Some_0
    } else {
        arbitrary()
    };
    let ghost asx3 = ser_opt_units(opt_len(c.command_palettes));
    let ghost asx2 = ",\"commandPalettes\":"@ + asx3;
    let ghost asx1 = ser_opt_commands(c.commands) + asx2;
    let ghost asx0 = "{\"commands\":"@ + asx1;
    proof {
        if on {
            assert(ser_ca1(c) =~= asx0);
        }
    }
    proof {
        if on {
            lemma_peel(v@, i as int, "{\"commands\":"@, asx1);
        }
    }
    let q0 = match expect_lit(v, i, "{\"commands\":") {
        None => {
            proof {
                if on {
                    assert(false);
                }
            }
            return None;
        },
        Some(x) => x,
    };
    let ghost sofar0 = "{\"commands\":"@;
    proof {
        assert(v@.subrange(i as int, q0 as int) == sofar0);
    }
    proof {
        if on {
            lemma_peel(v@, q0 as int, ser_opt_commands(c.commands), asx2);
        }
    }
    let (f_cmds, q1) = match parse_opt_commands(v, q0, Ghost(
        if on {
            Some(c.commands)
        } else {
            None
        },
    )) {
        None => {
            proof {
                if on {
                    assert(false);
                }
            }
            return None;
        },
        Some(x) => x,
    };
    let ghost sofar1 = sofar0 + ser_opt_commands(f_cmds);
    proof {
        lemma_join(v@, i as int, q0 as int, q1 as int, sofar0, ser_opt_commands(f_cmds));
    }
    proof {
        if on {
            lemma_peel(v@, q1 as int, ",\"commandPalettes\":"@, asx3);
        }
    }
    let q2 = match expect_lit(v, q1, ",\"commandPalettes\":") {
        None => {
            proof {
                if on {
                    assert(false);
                }
            }
            return None;
        },
        Some(x) => x,
    };
    let ghost sofar2 = sofar1 + ",\"commandPalettes\":"@;
    proof {
        lemma_join(v@, i as int, q1 as int, q2 as int, sofar1, ",\"commandPalettes\":"@);
    }
    let (o_cp, q3) = match parse_unit_count(v, q2, Ghost(
        if on {
            Some(opt_len(c.command_palettes))
        } else {
            None
        },
    )) {
        None => {
            proof {
                if on {
                    assert(false);
                }
            }
            return None;
        },
        Some(x) => x,
    };
    let ghost sofar3 = sofar2 + ser_opt_units(onat(o_cp));
    proof {
        lemma_join(v@, i as int, q2 as int, q3 as int, sofar2, ser_opt_units(onat(o_cp)));
    }
    proof {
        assert(v@.subrange(i as int, q3 as int) == sofar3);
    }
    Some(((f_cmds, o_cp), q3))
}

/// Parses one stretch of the contributes object.
#[verifier::rlimit(100)]
fn parse_ca2(v: &Vec<char>, i: usize, expect: Ghost<Option<ContributesManifest>>) -> (r: Option<
    ((Option<usize>, Option<usize>), usize),
>)
    requires
        i <= v@.len(),
        expect@ matches Some(c) ==> region_at(v@, i as int, ser_ca2(c)),
    ensures
        r matches Some((vals, j)) ==> i < j <= v@.len() && v@.subrange(i as int, j as int)
            == ",\"icons\":"@ + ser_opt_units(onat(vals.0)) + ",\"iconThemes\":"@ + ser_opt_units(onat(vals.1)),
        expect@ matches Some(c) ==> (r matches Some((vals, j)) && j == i + ser_ca2(c).len()),
{
    let ghost on = expect@ is Some;
    let ghost c = if on {
        expect@->Some_0
    } else {
        arbitrary()
    };
    let ghost asx3 = ser_opt_units(opt_len(c.icon_themes));
    let ghost asx2 = ",\"iconThemes\":"@ + asx3;
    let ghost asx1 = ser_opt_units(opt_len(c.icons)) + asx2;
    let ghost asx0 = ",\"icons\":"@ + asx1;
    proof {
        if on {
            assert(ser_ca2(c) =~= asx0);
        }
    }
    proof {
        if on {
            lemma_peel(v@, i as int, ",\"icons\":"@, asx1);
        }
    }
    let q0 = match expect_lit(v, i, ",\"icons\":") {
        None => {
            proof {
                if on {
                    assert(false);
                }
            }
            return None;
        },
        Some(x) => x,
    };
    let ghost sofar0 = ",\"icons\":"@;
    proof {
        assert(v@.subrange(i as int, q0 as int) == sofar0);
    }
    proof {
        if on {
            lemma_peel(v@, q0 as int, ser_opt_units(opt_len(c.icons)), asx2);
        }
    }
    let (o_ic, q1) = match parse_unit_count(v, q0, Ghost(
        if on {
            Some(opt_len(c.icons))
        } else {
            None
        },
    )) {
        None => {
            proof {
                if on {
                    assert(false);
                }
            }
            return None;
        },
        Some(x) => x,
    };
    let ghost sofar1 = sofar0 + ser_opt_units(onat(o_ic));
    proof {
        lemma_join(v@, i as int, q0 as int, q1 as int, sofar0, ser_opt_units(onat(o_ic)));
    }
    proof {
        if on {
            lemma_peel(v@, q1 as int, ",\"iconThemes\":"@, asx3);
        }
    }
    let q2 = match expect_lit(v, q1, ",\"iconThemes\":") {
        None => {
            proof {
                if on {
                    assert(false);
                }
            }
            return None;
        },
        Some(x) => x,
    };
    let ghost sofar2 = sofar1 + ",\"iconThemes\":"@;
    proof {
        lemma_join(v@, i as int, q1 as int, q2 as int, sofar1, ",\"iconThemes\":"@);
    }
    let (o_it, q3) = match parse_unit_count(v, q2, Ghost(
        if on {
            Some(opt_len(c.icon_themes))
        } else {
            None
        },
    )) {
        None => {
            proof {
                if on {
                    assert(false);
                }
            }
            return None;
        },
        Some(x) => x,
    };
    let ghost sofar3 = sofar2 + ser_opt_units(onat(o_it));
    proof {
        lemma_join(v@, i as int, q2 as int, q3 as int, sofar2, ser_opt_units(onat(o_it)));
    }
    proof {
        assert(v@.subrange(i as int, q3 as int) == sofar3);
    }
    Some(((o_ic, o_it), q3))
}

/// Parses one stretch of the contributes object.
#[verifier::rlimit(100)]
fn parse_cb1(v: &Vec<char>, i: usize, expect: Ghost<Option<ContributesManifest>>) -> (r: Option<
    ((Option<usize>, Option<usize>), usize),
>)
    requires
        i <= v@.len(),
        expect@ matches Some(c) ==> region_at(v@, i as int, ser_cb1(c)),
    ensures
        r matches Some((vals, j)) ==> i < j <= v@.len() && v@.subrange(i as int, j as int)
            == ",\"keybindings\":"@ + ser_opt_units(onat(vals.0)) + ",\"preferences\":"@ + ser_opt_units(onat(vals.1)),
        expect@ matches Some(c) ==> (r matches Some((vals, j)) && j == i + ser_cb1(c).len()),
{
    let ghost on = expect@ is Some;
    let ghost c = if on {
        expect@->Some_0
    } else {
        arbitrary()
    };
    let ghost bsx3 = ser_opt_units(opt_len(c.preferences));
    let ghost bsx2 = ",\"preferences\":"@ + bsx3;
    let ghost bsx1 = ser_opt_units(opt_len(c.keybindings)) + bsx2;
    let ghost bsx0 = ",\"keybindings\":"@ + bsx1;
    proof {
        if on {
            assert(ser_cb1(c) =~= bsx0);
        }
    }
    proof {
        if on {
            lemma_peel(v@, i as int, ",\"keybindings\":"@, bsx1);
        }
    }
    let q0 = match expect_lit(v, i, ",\"keybindings\":") {
        None => {
            proof {
                if on {
                    assert(false);
                }
            }
            return None;
        },
        Some(x) => x,
    };
    let ghost sofar0 = ",\"keybindings\":"@;
    proof {
        assert(v@.subrange(i as int, q0 as int) == sofar0);
    }
    proof {
        if on {
            lemma_peel(v@, q0 as int, ser_opt_units(opt_len(c.keybindings)), bsx2);
        }
    }
    let (o_kb, q1) = match parse_unit_count(v, q0, Ghost(
        if on {
            Some(opt_len(c.keybindings))
        } else {
            None
        },
    )) {
        None => {
            proof {
                if on {
                    assert(false);
                }
            }
            return None;
        },
        Some(x) => x,
    };
    let ghost sofar1 = sofar0 + ser_opt_units(onat(o_kb));
    proof {
        lemma_join(v@, i as int, q0 as int, q1 as int, sofar0, ser_opt_units(onat(o_kb)));
    }
    proof {
        if on {
            lemma_peel(v@, q1 as int, ",\"preferences\":"@, bsx3);
        }
    }
    let q2 = match expect_lit(v, q1, ",\"preferences\":") {
        None => {
            proof {
                if on {
                    assert(false);
                }
            }
            return None;
        },
        Some(x) => x,
    };
    let ghost sofar2 = sofar1 + ",\"preferences\":"@;
    proof {
        lemma_join(v@, i as int, q1 as int, q2 as int, sofar1, ",\"preferences\":"@);
    }
    let (o_pr, q3) = match parse_unit_count(v, q2, Ghost(
        if on {
            Some(opt_len(c.preferences))
        } else {
            None
        },
    )) {
        None => {
            proof {
                if on {
                    assert(false);
                }
            }
            return None;
        },
        Some(x) => x,
    };
    let ghost sofar3 = sofar2 + ser_opt_units(onat(o_pr));
    proof {
        lemma_join(v@, i as int, q2 as int, q3 as int, sofar2, ser_opt_units(onat(o_pr)));
    }
    proof {
        assert(v@.subrange(i as int, q3 as int) == sofar3);
    }
    Some(((o_kb, o_pr), q3))
}

/// Parses one stretch of the contributes object.
#[verifier::rlimit(100)]
fn parse_cb2(v: &Vec<char>, i: usize, expect: Ghost<Option<ContributesManifest>>) -> (r: Option<
    ((Option<usize>, Option<usize>), usize),
>)
    requires
        i <= v@.len(),
        expect@ matches Some(c) ==> region_at(v@, i as int, ser_cb2(c)),
    ensures
        r matches Some((vals, j)) ==> i < j <= v@.len() && v@.subrange(i as int, j as int)
            == ",\"themes\":"@ + ser_opt_units(onat(vals.0)) + ",\"views\":"@ + ser_opt_units(onat(vals.1)) + "}"@,
        expect@ matches Some(c) ==> (r matches Some((vals, j)) && j == i + ser_cb2(c).len()),
{
    let ghost on = expect@ is Some;
    let ghost c = if on {
        expect@->Some_0
    } else {
        arbitrary()
    };
    let ghost bsx4 = "}"@;
    let ghost bsx3 = ser_opt_units(opt_len(c.views)) + bsx4;
    let ghost bsx2 = ",\"views\":"@ + bsx3;
    let ghost bsx1 = ser_opt_units(opt_len(c.themes)) + bsx2;
    let ghost bsx0 = ",\"themes\":"@ + bsx1;
    proof {
        if on {
            assert(ser_cb2(c) =~= bsx0);
        }
    }
    proof {
        if on {
            lemma_peel(v@, i as int, ",\"themes\":"@, bsx1);
        }
    }
    let q0 = match expect_lit(v, i, ",\"themes\":") {
        None => {
            proof {
                if on {
                    assert(false);
                }
            }
            return None;
        },
        Some(x) => x,
    };
    let ghost sofar0 = ",\"themes\":"@;
    proof {
        assert(v@.subrange(i as int, q0 as int) == sofar0);
    }
    proof {
        if on {
            lemma_peel(v@, q0 as int, ser_opt_units(opt_len(c.themes)), bsx2);
        }
    }
    let (o_th, q1) = match parse_unit_count(v, q0, Ghost(
        if on {
            Some(opt_len(c.themes))
        } else {
            None
        },
    )) {
        None => {
            proof {
                if on {
                    assert(false);
                }
            }
            return None;
        },
        Some(x) => x,
    };
    let ghost sofar1 = sofar0 + ser_opt_units(onat(o_th));
    proof {
        lemma_join(v@, i as int, q0 as int, q1 as int, sofar0, ser_opt_units(onat(o_th)));
    }
    proof {
        if on {
            lemma_peel(v@, q1 as int, ",\"views\":"@, bsx3);
        }
    }
    let q2 = match expect_lit(v, q1, ",\"views\":") {
        None => {
            proof {
                if on {
                    assert(false);
                }
            }
            return None;
        },
        Some(x) => x,
    };
    let ghost sofar2 = sofar1 + ",\"views\":"@;
    proof {
        lemma_join(v@, i as int, q1 as int, q2 as int, sofar1, ",\"views\":"@);
    }
    proof {
        if on {
            lemma_peel(v@, q2 as int, ser_opt_units(opt_len(c.views)), bsx4);
        }
    }
    let (o_vw, q3) = match parse_unit_count(v, q2, Ghost(
        if on {
            Some(opt_len(c.views))
        } else {
            None
        },
    )) {
        None => {
            proof {
                if on {
                    assert(false);
                }
            }
            return None;
        },
        Some(x) => x,
    };
    let ghost sofar3 = sofar2 + ser_opt_units(onat(o_vw));
    proof {
        lemma_join(v@, i as int, q2 as int, q3 as int, sofar2, ser_opt_units(onat(o_vw)));
    }
    let q4 = match expect_lit(v, q3, "}") {
        None => {
            proof {
                if on {
                    assert(false);
                }
            }
            return None;
        },
        Some(x) => x,
    };
    let ghost sofar4 = sofar3 + "}"@;
    proof {
        lemma_join(v@, i as int, q3 as int, q4 as int, sofar3, "}"@);
    }
    proof {
        assert(v@.subrange(i as int, q4 as int) == sofar4);
    }
    Some(((o_th, o_vw), q4))
}

/// Four adjacent stretches assemble into the whole contributes
/// object.
#[verifier::rlimit(100)]
proof fn lemma_contrib_assemble(
    w: Seq<char>,
    i: int,
    j1: int,
    j2: int,
    j3: int,
    j4: int,
    cm: ContributesManifest,
)
    requires
        0 <= i <= j1 <= j2 <= j3 <= j4 <= w.len(),
        w.subrange(i, j1) == ser_ca1(cm),
        w.subrange(j1, j2) == ser_ca2(cm),
        w.subrange(j2, j3) == ser_cb1(cm),
        w.subrange(j3, j4) == ser_cb2(cm),
    ensures
        w.subrange(i, j4) == ser_contributes(cm),
{
    lemma_join(w, i, j1, j2, ser_ca1(cm), ser_ca2(cm));
    lemma_join(w, i, j2, j3, ser_ca1(cm) + ser_ca2(cm), ser_cb1(cm));
    lemma_join(w, i, j3, j4, ser_ca1(cm) + ser_ca2(cm) + ser_cb1(cm), ser_cb2(cm));
    assert(w.subrange(i, j4) =~= ser_contributes(cm));
}

/// Parses the canonical contributes object.
#[verifier::rlimit(100)]
fn parse_contributes(v: &Vec<char>, i: usize, expect: Ghost<Option<ContributesManifest>>) -> (r:
    Option<(ContributesManifest, usize)>)
    requires
        i <= v@.len(),
        expect@ matches Some(c) ==> region_at(v@, i as int, ser_contributes(c)),
    ensures
        r matches Some((cm, j)) ==> i < j <= v@.len() && v@.subrange(i as int, j as int)
            == ser_contributes(cm),
        expect@ matches Some(c) ==> (r matches Some((cm, j)) && j == i + ser_contributes(
            c,
        ).len()),
{
    let ghost on = expect@ is Some;
    let ghost c = if on {
        expect@->Some_0
    } else {
        arbitrary()
    };
    proof {
        if on {
            assert(ser_contrib_a(c) =~= ser_ca1(c) + ser_ca2(c));
            assert(ser_contrib_b(c) =~= ser_cb1(c) + ser_cb2(c));
            assert(ser_contributes(c) =~= ser_ca1(c) + (ser_ca2(c) + (ser_cb1(c) + ser_cb2(
                c,
            ))));
            lemma_peel(v@, i as int, ser_ca1(c), ser_ca2(c) + (ser_cb1(c) + ser_cb2(c)));
        }
    }
    let ((f_cmds, o_cp), j1) = match parse_ca1(v, i, expect) {
        None => {
            proof {
                if on {
                    assert(false);
                }
            }
            return None;
        },
        Some(x) => x,
    };
    proof {
        if on {
            lemma_peel(v@, j1 as int, ser_ca2(c), ser_cb1(c) + ser_cb2(c));
        }
    }
    let ((o_ic, o_it), j2) = match parse_ca2(v, j1, expect) {
        None => {
            proof {
                if on {
                    assert(false);
                }
            }
            return None;
        },
        Some(x) => x,
    };
    proof {
        if on {
            lemma_peel(v@, j2 as int, ser_cb1(c), ser_cb2(c));
        }
    }
    let ((o_kb, o_pr), j3) = match parse_cb1(v, j2, expect) {
        None => {
            proof {
                if on {
                    assert(false);
                }
            }
            return None;
        },
        Some(x) => x,
    };
    let ((o_th, o_vw), j4) = match parse_cb2(v, j3, expect) {
        None => {
            proof {
                if on {
                    assert(false);
                }
            }
            return None;
        },
        Some(x) => x,
    };
    let f_command_palettes: Option<Vec<CommandPalettesManifest>> = match o_cp {
        None => None,
        Some(nn) => Some(fill(CommandPalettesManifest {  }, nn)),
    };
    let f_icons: Option<Vec<IconsManifest>> = match o_ic {
        None => None,
        Some(nn) => Some(fill(IconsManifest {  }, nn)),
    };
    let f_icon_themes: Option<Vec<IconThemesManifest>> = match o_it {
        None => None,
        Some(nn) => Some(fill(IconThemesManifest {  }, nn)),
    };
    let f_keybindings: Option<Vec<KeybindingManifest>> = match o_kb {
        None => None,
        Some(nn) => Some(fill(KeybindingManifest {  }, nn)),
    };
    let f_preferences: Option<Vec<PreferenceManifest>> = match o_pr {
        None => None,
        Some(nn) => Some(fill(PreferenceManifest {  }, nn)),
    };
    let f_themes: Option<Vec<ThemesManifest>> = match o_th {
        None => None,
        Some(nn) => Some(fill(ThemesManifest {  }, nn)),
    };
    let f_views: Option<Vec<ViewManifest>> = match o_vw {
        None => None,
        Some(nn) => Some(fill(ViewManifest {  }, nn)),
    };
    let cm = ContributesManifest {
        commands: f_cmds,
        command_palettes: f_command_palettes,
        icons: f_icons,
        icon_themes: f_icon_themes,
        keybindings: f_keybindings,
        preferences: f_preferences,
        themes: f_themes,
        views: f_views,
    };
    proof {
        assert(opt_len(cm.command_palettes) == onat(o_cp));
        assert(opt_len(cm.icons) == onat(o_ic));
        assert(opt_len(cm.icon_themes) == onat(o_it));
        assert(opt_len(cm.keybindings) == onat(o_kb));
        assert(opt_len(cm.preferences) == onat(o_pr));
        assert(opt_len(cm.themes) == onat(o_th));
        assert(opt_len(cm.views) == onat(o_vw));
        assert(v@.subrange(i as int, j1 as int) == ser_ca1(cm));
        assert(v@.subrange(j1 as int, j2 as int) == ser_ca2(cm));
        assert(v@.subrange(j2 as int, j3 as int) == ser_cb1(cm));
        assert(v@.subrange(j3 as int, j4 as int) == ser_cb2(cm));
        lemma_contrib_assemble(
            v@,
            i as int,
            j1 as int,
            j2 as int,
            j3 as int,
            j4 as int,
            cm,
        );
        if on {
            assert(j4 == i + ser_contributes(c).len());
        }
    }
    Some((cm, j4))
}

/// Parses the leading scalar fields of the manifest document.
#[verifier::rlimit(100)]
fn parse_header(v: &Vec<char>, i: usize, expect: Ghost<Option<ExtensionManifest>>) -> (r: Option<
    ((String, String, String, String, String, String), usize),
>)
    requires
        i <= v@.len(),
        expect@ matches Some(m0) ==> region_at(v@, i as int, ser_header(m0)),
    ensures
        r matches Some(((a, b, cc, d, e, f), j)) ==> i < j <= v@.len() && v@.subrange(
            i as int,
            j as int,
        ) == "{\"name\":"@ + jstr(a@) + ",\"title\":"@ + jstr(b@) + ",\"version\":"@ + jstr(
            cc@,
        ) + ",\"publisher\":"@ + jstr(d@) + ",\"license\":"@ + jstr(e@)
            + ",\"description\":"@ + jstr(f@),
        expect@ matches Some(m0) ==> (r matches Some((vals, j)) && j == i + ser_header(m0).len()),
{
    let ghost on = expect@ is Some;
    let ghost m0 = if on {
        expect@->Some_0
    } else {
        arbitrary()
    };
    let ghost sx11 = jstr(m0.description@);
    let ghost sx10 = ",\"description\":"@ + sx11;
    let ghost sx9 = jstr(m0.license@) + sx10;
    let ghost sx8 = ",\"license\":"@ + sx9;
    let ghost sx7 = jstr(m0.publisher@) + sx8;
    let ghost sx6 = ",\"publisher\":"@ + sx7;
    let ghost sx5 = jstr(m0.version@) + sx6;
    let ghost sx4 = ",\"version\":"@ + sx5;
    let ghost sx3 = jstr(m0.title@) + sx4;
    let ghost sx2 = ",\"title\":"@ + sx3;
    let ghost sx1 = jstr(m0.name@) + sx2;
    let ghost sx0 = "{\"name\":"@ + sx1;
    proof {
        if on {
            assert(ser_header(m0) =~= sx0);
        }
    }
    proof {
        if on {
            lemma_peel(v@, i as int, "{\"name\":"@, sx1);
        }
    }
    let q0 = match expect_lit(v, i, "{\"name\":") {
        None => {
            proof {
                if on {
                    assert(false);
                }
            }
            return None;
        },
        Some(x) => x,
    };
    proof {
        if on {
            lemma_peel(v@, q0 as int, jstr(m0.name@), sx2);
        }
    }
    let (s_name, q1) = match parse_jstring(v, q0, Ghost(
        if on {
            Some(m0.name@)
        } else {
            None
        },
    )) {
        None => {
            proof {
                if on {
                    assert(false);
                }
            }
            return None;
        },
        Some(x) => x,
    };
    proof {
        lemma_join(v@, i as int, q0 as int, q1 as int, "{\"name\":"@, jstr(s_name@));
    }
    proof {
        if on {
            lemma_peel(v@, q1 as int, ",\"title\":"@, sx3);
        }
    }
    let q2 = match expect_lit(v, q1, ",\"title\":") {
        None => {
            proof {
                if on {
                    assert(false);
                }
            }
            return None;
        },
        Some(x) => x,
    };
    proof {
        lemma_join(v@, i as int, q1 as int, q2 as int, "{\"name\":"@ + jstr(s_name@), ",\"title\":"@);
    }
    proof {
        if on {
            lemma_peel(v@, q2 as int, jstr(m0.title@), sx4);
        }
    }
    let (s_title, q3) = match parse_jstring(v, q2, Ghost(
        if on {
            Some(m0.title@)
        } else {
            None
        },
    )) {
        None => {
            proof {
                if on {
                    assert(false);
                }
            }
            return None;
        },
        Some(x) => x,
    };
    proof {
        lemma_join(v@, i as int, q2 as int, q3 as int, "{\"name\":"@ + jstr(s_name@) + ",\"title\":"@, jstr(s_title@));
    }
    proof {
        if on {
            lemma_peel(v@, q3 as int, ",\"version\":"@, sx5);
        }
    }
    let q4 = match expect_lit(v, q3, ",\"version\":") {
        None => {
            proof {
                if on {
                    assert(false);
                }
            }
            return None;
        },
        Some(x) => x,
    };
    proof {
        lemma_join(v@, i as int, q3 as int, q4 as int, "{\"name\":"@ + jstr(s_name@) + ",\"title\":"@ + jstr(s_title@), ",\"version\":"@);
    }
    proof {
        if on {
            lemma_peel(v@, q4 as int, jstr(m0.version@), sx6);
        }
    }
    let (s_version, q5) = match parse_jstring(v, q4, Ghost(
        if on {
            Some(m0.version@)
        } else {
            None
        },
    )) {
        None => {
            proof {
                if on {
                    assert(false);
                }
            }
            return None;
        },
        Some(x) => x,
    };
    proof {
        lemma_join(v@, i as int, q4 as int, q5 as int, "{\"name\":"@ + jstr(s_name@) + ",\"title\":"@ + jstr(s_title@) + ",\"version\":"@, jstr(s_version@));
    }
    proof {
        if on {
            lemma_peel(v@, q5 as int, ",\"publisher\":"@, sx7);
        }
    }
    let q6 = match expect_lit(v, q5, ",\"publisher\":") {
        None => {
            proof {
                if on {
                    assert(false);
                }
            }
            return None;
        },
        Some(x) => x,
    };
    proof {
        lemma_join(v@, i as int, q5 as int, q6 as int, "{\"name\":"@ + jstr(s_name@) + ",\"title\":"@ + jstr(s_title@) + ",\"version\":"@ + jstr(s_version@), ",\"publisher\":"@);
    }
    proof {
        if on {
            lemma_peel(v@, q6 as int, jstr(m0.publisher@), sx8);
        }
    }
    let (s_publisher, q7) = match parse_jstring(v, q6, Ghost(
        if on {
            Some(m0.publisher@)
        } else {
            None
        },
    )) {
        None => {
            proof {
                if on {
                    assert(false);
                }
            }
            return None;
        },
        Some(x) => x,
    };
    proof {
        lemma_join(v@, i as int, q6 as int, q7 as int, "{\"name\":"@ + jstr(s_name@) + ",\"title\":"@ + jstr(s_title@) + ",\"version\":"@ + jstr(s_version@) + ",\"publisher\":"@, jstr(s_publisher@));
    }
    proof {
        if on {
            lemma_peel(v@, q7 as int, ",\"license\":"@, sx9);
        }
    }
    let q8 = match expect_lit(v, q7, ",\"license\":") {
        None => {
            proof {
                if on {
                    assert(false);
                }
            }
            return None;
        },
        Some(x) => x,
    };
    proof {
        lemma_join(v@, i as int, q7 as int, q8 as int, "{\"name\":"@ + jstr(s_name@) + ",\"title\":"@ + jstr(s_title@) + ",\"version\":"@ + jstr(s_version@) + ",\"publisher\":"@ + jstr(s_publisher@), ",\"license\":"@);
    }
    proof {
        if on {
            lemma_peel(v@, q8 as int, jstr(m0.license@), sx10);
        }
    }
    let (s_license, q9) = match parse_jstring(v, q8, Ghost(
        if on {
            Some(m0.license@)
        } else {
            None
        },
    )) {
        None => {
            proof {
                if on {
                    assert(false);
                }
            }
            return None;
        },
        Some(x) => x,
    };
    proof {
        lemma_join(v@, i as int, q8 as int, q9 as int, "{\"name\":"@ + jstr(s_name@) + ",\"title\":"@ + jstr(s_title@) + ",\"version\":"@ + jstr(s_version@) + ",\"publisher\":"@ + jstr(s_publisher@) + ",\"license\":"@, jstr(s_license@));
    }
    proof {
        if on {
            lemma_peel(v@, q9 as int, ",\"description\":"@, sx11);
        }
    }
    let q10 = match expect_lit(v, q9, ",\"description\":") {
        None => {
            proof {
                if on {
                    assert(false);
                }
            }
            return None;
        },
        Some(x) => x,
    };
    proof {
        lemma_join(v@, i as int, q9 as int, q10 as int, "{\"name\":"@ + jstr(s_name@) + ",\"title\":"@ + jstr(s_title@) + ",\"version\":"@ + jstr(s_version@) + ",\"publisher\":"@ + jstr(s_publisher@) + ",\"license\":"@ + jstr(s_license@), ",\"description\":"@);
    }
    let (s_description, q11) = match parse_jstring(v, q10, Ghost(
        if on {
            Some(m0.description@)
        } else {
            None
        },
    )) {
        None => {
            proof {
                if on {
                    assert(false);
                }
            }
            return None;
        },
        Some(x) => x,
    };
    proof {
        lemma_join(v@, i as int, q10 as int, q11 as int, "{\"name\":"@ + jstr(s_name@) + ",\"title\":"@ + jstr(s_title@) + ",\"version\":"@ + jstr(s_version@) + ",\"publisher\":"@ + jstr(s_publisher@) + ",\"license\":"@ + jstr(s_license@) + ",\"description\":"@, jstr(s_description@));
    }
    Some(((s_name, s_title, s_version, s_publisher, s_license, s_description), q11))
}

/// The manifest document splits into header, icon, contributes and
/// the closing brace.
#[verifier::rlimit(100)]
proof fn lemma_manifest_split(m: ExtensionManifest)
    ensures
        spec_ser_manifest(m) == ser_header(m) + (",\"icon\":"@ + (jstr(m.icon@) + (
        ",\"contributes\":"@ + (ser_contributes(m.contributes) + "}"@)))),
{
    assert(spec_ser_manifest(m) =~= ser_header(m) + (",\"icon\":"@ + (jstr(m.icon@) + (
    ",\"contributes\":"@ + (ser_contributes(m.contributes) + "}"@)))));
}

/// Five adjacent stretches assemble into the whole manifest document.
#[verifier::rlimit(100)]
proof fn lemma_manifest_assemble(
    w: Seq<char>,
    j0: int,
    j1: int,
    j2: int,
    j3: int,
    j4: int,
    j5: int,
    m: ExtensionManifest,
)
    requires
        0 <= j0 <= j1 <= j2 <= j3 <= j4 <= j5 <= w.len(),
        w.subrange(0, j0) == ser_header(m),
        w.subrange(j0, j1) == ",\"icon\":"@,
        w.subrange(j1, j2) == jstr(m.icon@),
        w.subrange(j2, j3) == ",\"contributes\":"@,
        w.subrange(j3, j4) == ser_contributes(m.contributes),
        w.subrange(j4, j5) == "}"@,
    ensures
        w.subrange(0, j5) == spec_ser_manifest(m),
{
    lemma_join(w, 0, j0, j1, ser_header(m), ",\"icon\":"@);
    lemma_join(w, 0, j1, j2, ser_header(m) + ",\"icon\":"@, jstr(m.icon@));
    lemma_join(
        w,
        0,
        j2,
        j3,
        ser_header(m) + ",\"icon\":"@ + jstr(m.icon@),
        ",\"contributes\":"@,
    );
    lemma_join(
        w,
        0,
        j3,
        j4,
        ser_header(m) + ",\"icon\":"@ + jstr(m.icon@) + ",\"contributes\":"@,
        ser_contributes(m.contributes),
    );
    lemma_join(
        w,
        0,
        j4,
        j5,
        ser_header(m) + ",\"icon\":"@ + jstr(m.icon@) + ",\"contributes\":"@
            + ser_contributes(m.contributes),
        "}"@,
    );
}

/// Parses the one canonical manifest document. Succeeds on every
/// canonical document, and whatever it accepts serializes back to
/// exactly the input.
#[verifier::rlimit(100)]
fn deserialize_canonical(document: &str) -> (r: Result<ExtensionManifest, ManifestError>)
    ensures
        r matches Ok(p) ==> document@ == spec_ser_manifest(p),
        (exists|m: ExtensionManifest| document@ == spec_ser_manifest(m)) ==> r is Ok,
        r matches Err(e) ==> e == ManifestError::Malformed,
{
    let v = chars_of(document);
    let ghost on = exists|m: ExtensionManifest| document@ == spec_ser_manifest(m);
    let ghost m0: ExtensionManifest = if on {
        choose|m: ExtensionManifest| document@ == spec_ser_manifest(m)
    } else {
        arbitrary()
    };
    let i: usize = 0;
    let ghost sxa = "}"@;
    let ghost sxb = ser_contributes(m0.contributes) + sxa;
    let ghost sxc = ",\"contributes\":"@ + sxb;
    let ghost sxd = jstr(m0.icon@) + sxc;
    let ghost sxe = ",\"icon\":"@ + sxd;
    let ghost sx0 = ser_header(m0) + sxe;
    proof {
        if on {
            assert(v@.subrange(0, spec_ser_manifest(m0).len() as int) =~= v@);
            assert(region_at(v@, 0, spec_ser_manifest(m0)));
            lemma_manifest_split(m0);
            assert(spec_ser_manifest(m0) == sx0);
            lemma_peel(v@, 0, ser_header(m0), sxe);
        }
    }
    let ((s_name, s_title, s_version, s_publisher, s_license, s_description), j0) =
        match parse_header(&v, i, Ghost(
        if on {
            Some(m0)
        } else {
            None
        },
    )) {
        None => {
            proof {
                if on {
                    assert(false);
                }
            }
            return Err(ManifestError::Malformed);
        },
        Some(x) => x,
    };
    proof {
        if on {
            lemma_peel(v@, j0 as int, ",\"icon\":"@, sxd);
        }
    }
    let j1 = match expect_lit(&v, j0, ",\"icon\":") {
        None => {
            proof {
                if on {
                    assert(false);
                }
            }
            return Err(ManifestError::Malformed);
        },
        Some(x) => x,
    };
    proof {
        if on {
            lemma_peel(v@, j1 as int, jstr(m0.icon@), sxc);
        }
    }
    let (s_icon, j2) = match parse_jstring(&v, j1, Ghost(
        if on {
            Some(m0.icon@)
        } else {
            None
        },
    )) {
        None => {
            proof {
                if on {
                    assert(false);
                }
            }
            return Err(ManifestError::Malformed);
        },
        Some(x) => x,
    };
    proof {
        if on {
            lemma_peel(v@, j2 as int, ",\"contributes\":"@, sxb);
        }
    }
    let j3 = match expect_lit(&v, j2, ",\"contributes\":") {
        None => {
            proof {
                if on {
                    assert(false);
                }
            }
            return Err(ManifestError::Malformed);
        },
        Some(x) => x,
    };
    proof {
        if on {
            lemma_peel(v@, j3 as int, ser_contributes(m0.contributes), sxa);
        }
    }
    let (f_contrib, j4) = match parse_contributes(&v, j3, Ghost(
        if on {
            Some(m0.contributes)
        } else {
            None
        },
    )) {
        None => {
            proof {
                if on {
                    assert(false);
                }
            }
            return Err(ManifestError::Malformed);
        },
        Some(x) => x,
    };
    let j5 = match expect_lit(&v, j4, "}") {
        None => {
            proof {
                if on {
                    assert(false);
                }
            }
            return Err(ManifestError::Malformed);
        },
        Some(x) => x,
    };
    if j5 != v.len() {
        proof {
            if on {
                assert(j5 == spec_ser_manifest(m0).len());
                assert(false);
            }
        }
        return Err(ManifestError::Malformed);
    }
    let m = ExtensionManifest {
        name: s_name,
        title: s_title,
        version: s_version,
        publisher: s_publisher,
        license: s_license,
        description: s_description,
        icon: s_icon,
        contributes: f_contrib,
    };
    proof {
        assert(v@.subrange(0, j0 as int) == ser_header(m));
        lemma_manifest_assemble(
            v@,
            j0 as int,
            j1 as int,
            j2 as int,
            j3 as int,
            j4 as int,
            j5 as int,
            m,
        );
        assert(v@.subrange(0, v@.len() as int) =~= v@);
        assert(document@ == spec_ser_manifest(m));
    }
    Ok(m)
}

/// Reads a manifest document. Ordinary JSON is accepted: fields in
/// any order, free whitespace, absent optional fields defaulting to
/// `None`, unknown fields tolerated and skipped. On the canonical
/// documents that `serialize` prints this is proved total and exact:
/// such a document always parses, and printing the result returns the
/// input, `serialize(deserialize(d)) == d`. What the wider grammar
/// reads out of concrete documents is pinned by the test suite;
/// `Malformed` is reserved for text that is not a JSON manifest
/// document of this shape.
pub fn deserialize(document: &str) -> (r: Result<ExtensionManifest, ManifestError>)
    ensures
        (exists|m: ExtensionManifest| document@ == spec_ser_manifest(m)) ==> (r matches Ok(p)
            && document@ == spec_ser_manifest(p)),
        r matches Err(e) ==> e == ManifestError::Malformed,
{
    match deserialize_canonical(document) {
        Ok(m) => Ok(m),
        Err(_) => {
            let v = chars_of(document);
            match crate::reader::read_document(&v) {
                Some(m) => Ok(m),
                None => Err(ManifestError::Malformed),
            }
        },
    }
}

impl ExtensionManifest {
    /// Reads a manifest out of its document and validates it as a
    /// whole: the parse, then every field constraint, with all
    /// violations batched into one error. Ordinary JSON documents are
    /// accepted as `deserialize` describes; on canonical documents the
    /// outcome is pinned exactly. `NotFound` is never produced here;
    /// it belongs to the caller that looked the file up on disk.
    pub fn load(document: &str) -> (r: Result<ExtensionManifest, ManifestError>)
        ensures
            r matches Ok(m) ==> crate::manifest::spec_manifest_valid(m),
            r matches Ok(m) ==> ((exists|m0: ExtensionManifest|
                document@ == spec_ser_manifest(m0)) ==> document@ == spec_ser_manifest(m)),
            r matches Err(ManifestError::Malformed) ==> !(exists|m: ExtensionManifest|
                document@ == spec_ser_manifest(m)),
            r matches Err(ManifestError::Invalid(vs)) ==> vs@.len() > 0 && (exists|
                m: ExtensionManifest,
            |
                vs@ == crate::manifest::spec_violations(m)),
            r matches Err(ManifestError::Invalid(vs)) ==> ((exists|m0: ExtensionManifest|
                document@ == spec_ser_manifest(m0)) ==> (exists|m: ExtensionManifest|
                document@ == spec_ser_manifest(m) && vs@ == crate::manifest::spec_violations(
                    m,
                ))),
            !(r matches Err(ManifestError::NotFound)),
    {
        let m = match deserialize(document) {
            Err(_) => {
                return Err(ManifestError::Malformed);
            },
            Ok(m) => m,
        };
        let vs = crate::manifest::validate(&m);
        if vs.len() == 0 {
            Ok(m)
        } else {
            proof {
                if exists|m0: ExtensionManifest| document@ == spec_ser_manifest(m0) {
                    assert(document@ == spec_ser_manifest(m) && vs@
                        == crate::manifest::spec_violations(m));
                }
            }
            Err(ManifestError::Invalid(vs))
        }
    }
}

} // verus!
