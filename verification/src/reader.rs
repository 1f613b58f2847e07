//! Tolerant manifest reader.
//!
//! Manifest files are written by people: fields come in any order,
//! whitespace and newlines are free, optional fields may simply be
//! absent, and unknown fields appear alongside the known ones. This
//! module reads such ordinary JSON manifest documents into the model
//! types; unknown fields are skipped, absent optional fields default
//! to `None`, and a duplicated key keeps its last value.
//!
//! The canonical parser in `codec` carries the exact inverse and
//! totality contracts; this reader widens what `deserialize` accepts.
//! Its own contracts state progress and bounds; what it reads out of
//! concrete documents is pinned by the test suite.

use vstd::prelude::*;
use crate::manifest::{
    CommandManifest, CommandPalettesManifest, ContributesManifest, ExtensionManifest,
    IconThemesManifest, IconsManifest, KeybindingManifest, PreferenceManifest, ThemesManifest,
    ViewManifest,
};
use crate::text::{str_eq, string_of};

verus! {

/// Advances past blanks, tabs, newlines and carriage returns.
fn skip_ws(v: &Vec<char>, i: usize) -> (j: usize)
    requires
        i <= v@.len(),
    ensures
        i <= j <= v@.len(),
{
    let mut j = i;
    while j < v.len() && (v[j] == ' ' || v[j] == '\n' || v[j] == '\t' || v[j] == '\r')
        invariant
            i <= j <= v@.len(),
        decreases v@.len() - j,
    {
        j += 1;
    }
    j
}

/// Reads a JSON string with the usual escapes.
fn read_string(v: &Vec<char>, i: usize) -> (r: Option<(String, usize)>)
    requires
        i <= v@.len(),
    ensures
        r matches Some((s, j)) ==> i < j <= v@.len(),
{
    if i >= v.len() || v[i] != '"' {
        return None;
    }
    let mut acc: Vec<char> = Vec::new();
    let mut j: usize = i + 1;
    while j < v.len()
        invariant
            i < j <= v@.len(),
            v@.len() <= usize::MAX,
        decreases v@.len() - j,
    {
        let c = v[j];
        if c == '"' {
            return Some((string_of(&acc), j + 1));
        } else if c == '\\' {
            if j + 1 >= v.len() {
                return None;
            }
            let e = v[j + 1];
            let d: char = match e {
                '"' => '"',
                '\\' => '\\',
                '/' => '/',
                'n' => '\n',
                't' => '\t',
                'r' => '\r',
                'b' => '\u{0008}',
                'f' => '\u{000C}',
                _ => {
                    return None;
                },
            };
            acc.push(d);
            j += 2;
        } else {
            acc.push(c);
            j += 1;
        }
    }
    None
}

fn char_is_number_part(c: char) -> (b: bool)
{
    let u = c as u32;
    (48 <= u && u <= 57) || c == '-' || c == '+' || c == '.' || c == 'e' || c == 'E'
}

/// Skips one JSON value of any shape; only its extent matters.
fn skip_value(v: &Vec<char>, i: usize) -> (r: Option<usize>)
    requires
        i <= v@.len(),
    ensures
        r matches Some(j) ==> i < j <= v@.len(),
    decreases v@.len() - i,
{
    if i >= v.len() {
        return None;
    }
    let c = v[i];
    if c == '"' {
        match read_string(v, i) {
            Some((_, j)) => Some(j),
            None => None,
        }
    } else if c == 't' {
        proof {
            reveal_strlit("true");
        }
        crate::codec::expect_lit(v, i, "true")
    } else if c == 'f' {
        proof {
            reveal_strlit("false");
        }
        crate::codec::expect_lit(v, i, "false")
    } else if c == 'n' {
        proof {
            reveal_strlit("null");
        }
        crate::codec::expect_lit(v, i, "null")
    } else if c == '{' {
        let mut j: usize = skip_ws(v, i + 1);
        if j < v.len() && v[j] == '}' {
            return Some(j + 1);
        }
        loop
            invariant
                i < j <= v@.len(),
                v@.len() <= usize::MAX,
            decreases v@.len() - j,
        {
            let (_, j2) = match read_string(v, j) {
                None => {
                    return None;
                },
                Some(x) => x,
            };
            let mut k = skip_ws(v, j2);
            if k >= v.len() || v[k] != ':' {
                return None;
            }
            k = skip_ws(v, k + 1);
            let k2 = match skip_value(v, k) {
                None => {
                    return None;
                },
                Some(x) => x,
            };
            let k3 = skip_ws(v, k2);
            if k3 >= v.len() {
                return None;
            }
            if v[k3] == '}' {
                return Some(k3 + 1);
            }
            if v[k3] != ',' {
                return None;
            }
            let j3 = skip_ws(v, k3 + 1);
            if j3 <= j {
                return None;
            }
            j = j3;
        }
    } else if c == '[' {
        let mut j: usize = skip_ws(v, i + 1);
        if j < v.len() && v[j] == ']' {
            return Some(j + 1);
        }
        loop
            invariant
                i < j <= v@.len(),
                v@.len() <= usize::MAX,
            decreases v@.len() - j,
        {
            let k2 = match skip_value(v, j) {
                None => {
                    return None;
                },
                Some(x) => x,
            };
            let k3 = skip_ws(v, k2);
            if k3 >= v.len() {
                return None;
            }
            if v[k3] == ']' {
                return Some(k3 + 1);
            }
            if v[k3] != ',' {
                return None;
            }
            let j3 = skip_ws(v, k3 + 1);
            if j3 <= j {
                return None;
            }
            j = j3;
        }
    } else if char_is_number_part(c) {
        let mut j: usize = i + 1;
        while j < v.len() && char_is_number_part(v[j])
            invariant
                i < j <= v@.len(),
            decreases v@.len() - j,
        {
            j += 1;
        }
        Some(j)
    } else {
        None
    }
}

/// Reads `null` or a string.
fn read_string_or_null(v: &Vec<char>, i: usize) -> (r: Option<(Option<String>, usize)>)
    requires
        i <= v@.len(),
    ensures
        r matches Some((_, j)) ==> i < j <= v@.len(),
{
    if i < v.len() && v[i] == 'n' {
        proof {
            reveal_strlit("null");
        }
        return match crate::codec::expect_lit(v, i, "null") {
            None => None,
            Some(j) => Some((None, j)),
        };
    }
    match read_string(v, i) {
        None => None,
        Some((s, j)) => Some((Some(s), j)),
    }
}

/// Reads `null`, `true` or `false`.
fn read_bool_or_null(v: &Vec<char>, i: usize) -> (r: Option<(Option<bool>, usize)>)
    requires
        i <= v@.len(),
    ensures
        r matches Some((_, j)) ==> i < j <= v@.len(),
{
    proof {
        reveal_strlit("null");
        reveal_strlit("true");
        reveal_strlit("false");
    }
    if i >= v.len() {
        return None;
    }
    if v[i] == 'n' {
        match crate::codec::expect_lit(v, i, "null") {
            None => None,
            Some(j) => Some((None, j)),
        }
    } else if v[i] == 't' {
        match crate::codec::expect_lit(v, i, "true") {
            None => None,
            Some(j) => Some((Some(true), j)),
        }
    } else if v[i] == 'f' {
        match crate::codec::expect_lit(v, i, "false") {
            None => None,
            Some(j) => Some((Some(false), j)),
        }
    } else {
        None
    }
}

/// Reads `null` or an array of objects, returning how many.
fn read_unit_array(v: &Vec<char>, i: usize) -> (r: Option<(Option<usize>, usize)>)
    requires
        i <= v@.len(),
    ensures
        r matches Some((_, j)) ==> i < j <= v@.len(),
{
    if i >= v.len() {
        return None;
    }
    if v[i] == 'n' {
        proof {
            reveal_strlit("null");
        }
        return match crate::codec::expect_lit(v, i, "null") {
            None => None,
            Some(j) => Some((None, j)),
        };
    }
    if v[i] != '[' {
        return None;
    }
    let mut j: usize = skip_ws(v, i + 1);
    if j < v.len() && v[j] == ']' {
        return Some((Some(0), j + 1));
    }
    let mut count: usize = 0;
    loop
        invariant
            i < j <= v@.len(),
            v@.len() <= usize::MAX,
            count <= j - i - 1,
        decreases v@.len() - j,
    {
        if j >= v.len() || v[j] != '{' {
            return None;
        }
        let k2 = match skip_value(v, j) {
            None => {
                return None;
            },
            Some(x) => x,
        };
        count += 1;
        let k3 = skip_ws(v, k2);
        if k3 >= v.len() {
            return None;
        }
        if v[k3] == ']' {
            return Some((Some(count), k3 + 1));
        }
        if v[k3] != ',' {
            return None;
        }
        let j3 = skip_ws(v, k3 + 1);
        if j3 <= j + 1 {
            return None;
        }
        j = j3;
    }
}

/// Reads one command entry: an object whose known fields land in the
/// model, whose unknown fields are skipped, and whose `command`,
/// `title` and `description` must be present.
fn read_command(v: &Vec<char>, i: usize) -> (r: Option<(CommandManifest, usize)>)
    requires
        i <= v@.len(),
    ensures
        r matches Some((_, j)) ==> i < j <= v@.len(),
{
    if i >= v.len() || v[i] != '{' {
        return None;
    }
    let mut command: Option<String> = None;
    let mut title: Option<String> = None;
    let mut subtitle: Option<String> = None;
    let mut description: Option<String> = None;
    let mut icon: Option<String> = None;
    let mut disabled_by_default: Option<bool> = None;
    let mut j: usize = skip_ws(v, i + 1);
    let mut first = true;
    loop
        invariant
            i < j <= v@.len(),
            v@.len() <= usize::MAX,
        decreases v@.len() - j,
    {
        if j < v.len() && v[j] == '}' && first {
            j += 1;
            break;
        }
        let (key, j2) = match read_string(v, j) {
            None => {
                return None;
            },
            Some(x) => x,
        };
        let mut k = skip_ws(v, j2);
        if k >= v.len() || v[k] != ':' {
            return None;
        }
        k = skip_ws(v, k + 1);
        let k2: usize;
        if str_eq(key.as_str(), "command") {
            match read_string(v, k) {
                None => {
                    return None;
                },
                Some((s, x)) => {
                    command = Some(s);
                    k2 = x;
                },
            }
        } else if str_eq(key.as_str(), "title") {
            match read_string(v, k) {
                None => {
                    return None;
                },
                Some((s, x)) => {
                    title = Some(s);
                    k2 = x;
                },
            }
        } else if str_eq(key.as_str(), "subtitle") {
            match read_string_or_null(v, k) {
                None => {
                    return None;
                },
                Some((s, x)) => {
                    subtitle = s;
                    k2 = x;
                },
            }
        } else if str_eq(key.as_str(), "description") {
            match read_string(v, k) {
                None => {
                    return None;
                },
                Some((s, x)) => {
                    description = Some(s);
                    k2 = x;
                },
            }
        } else if str_eq(key.as_str(), "icon") {
            match read_string_or_null(v, k) {
                None => {
                    return None;
                },
                Some((s, x)) => {
                    icon = s;
                    k2 = x;
                },
            }
        } else if str_eq(key.as_str(), "disabledByDefault") {
            match read_bool_or_null(v, k) {
                None => {
                    return None;
                },
                Some((b, x)) => {
                    disabled_by_default = b;
                    k2 = x;
                },
            }
        } else {
            match skip_value(v, k) {
                None => {
                    return None;
                },
                Some(x) => {
                    k2 = x;
                },
            }
        }
        let k3 = skip_ws(v, k2);
        if k3 >= v.len() {
            return None;
        }
        if v[k3] == '}' {
            j = k3 + 1;
            break;
        }
        if v[k3] != ',' {
            return None;
        }
        let j3 = skip_ws(v, k3 + 1);
        if j3 <= j {
            return None;
        }
        j = j3;
        first = false;
    }
    let command = match command {
        None => {
            return None;
        },
        Some(s) => s,
    };
    let title = match title {
        None => {
            return None;
        },
        Some(s) => s,
    };
    let description = match description {
        None => {
            return None;
        },
        Some(s) => s,
    };
    Some((
        CommandManifest { command, title, subtitle, description, icon, disabled_by_default },
        j,
    ))
}

/// Reads `null` or an array of command entries.
fn read_commands(v: &Vec<char>, i: usize) -> (r: Option<(Option<Vec<CommandManifest>>, usize)>)
    requires
        i <= v@.len(),
    ensures
        r matches Some((_, j)) ==> i < j <= v@.len(),
{
    if i >= v.len() {
        return None;
    }
    if v[i] == 'n' {
        proof {
            reveal_strlit("null");
        }
        return match crate::codec::expect_lit(v, i, "null") {
            None => None,
            Some(j) => Some((None, j)),
        };
    }
    if v[i] != '[' {
        return None;
    }
    let mut j: usize = skip_ws(v, i + 1);
    let mut out: Vec<CommandManifest> = Vec::new();
    if j < v.len() && v[j] == ']' {
        return Some((Some(out), j + 1));
    }
    loop
        invariant
            i < j <= v@.len(),
            v@.len() <= usize::MAX,
        decreases v@.len() - j,
    {
        let (cmd, k2) = match read_command(v, j) {
            None => {
                return None;
            },
            Some(x) => x,
        };
        out.push(cmd);
        let k3 = skip_ws(v, k2);
        if k3 >= v.len() {
            return None;
        }
        if v[k3] == ']' {
            return Some((Some(out), k3 + 1));
        }
        if v[k3] != ',' {
            return None;
        }
        let j3 = skip_ws(v, k3 + 1);
        if j3 <= j {
            return None;
        }
        j = j3;
    }
}

fn fill_units<T: Copy>(x: T, n: usize) -> (r: Vec<T>)
    ensures
        r@.len() == n,
{
    let mut r: Vec<T> = Vec::new();
    let mut k: usize = 0;
    while k < n
        invariant
            k <= n,
            r@.len() == k,
        decreases n - k,
    {
        r.push(x);
        k += 1;
    }
    r
}

/// Reads the contributes object; every contribution category is
/// optional and unknown categories are skipped.
fn read_contributes(v: &Vec<char>, i: usize) -> (r: Option<(ContributesManifest, usize)>)
    requires
        i <= v@.len(),
    ensures
        r matches Some((_, j)) ==> i < j <= v@.len(),
{
    if i >= v.len() || v[i] != '{' {
        return None;
    }
    let mut commands: Option<Vec<CommandManifest>> = None;
    let mut command_palettes: Option<usize> = None;
    let mut icons: Option<usize> = None;
    let mut icon_themes: Option<usize> = None;
    let mut keybindings: Option<usize> = None;
    let mut preferences: Option<usize> = None;
    let mut themes: Option<usize> = None;
    let mut views: Option<usize> = None;
    let mut j: usize = skip_ws(v, i + 1);
    let mut first = true;
    loop
        invariant
            i < j <= v@.len(),
            v@.len() <= usize::MAX,
        decreases v@.len() - j,
    {
        if j < v.len() && v[j] == '}' && first {
            j += 1;
            break;
        }
        let (key, j2) = match read_string(v, j) {
            None => {
                return None;
            },
            Some(x) => x,
        };
        let mut k = skip_ws(v, j2);
        if k >= v.len() || v[k] != ':' {
            return None;
        }
        k = skip_ws(v, k + 1);
        let k2: usize;
        if str_eq(key.as_str(), "commands") {
            match read_commands(v, k) {
                None => {
                    return None;
                },
                Some((c, x)) => {
                    commands = c;
                    k2 = x;
                },
            }
        } else if str_eq(key.as_str(), "commandPalettes") {
            match read_unit_array(v, k) {
                None => {
                    return None;
                },
                Some((c, x)) => {
                    command_palettes = c;
                    k2 = x;
                },
            }
        } else if str_eq(key.as_str(), "icons") {
            match read_unit_array(v, k) {
                None => {
                    return None;
                },
                Some((c, x)) => {
                    icons = c;
                    k2 = x;
                },
            }
        } else if str_eq(key.as_str(), "iconThemes") {
            match read_unit_array(v, k) {
                None => {
                    return None;
                },
                Some((c, x)) => {
                    icon_themes = c;
                    k2 = x;
                },
            }
        } else if str_eq(key.as_str(), "keybindings") {
            match read_unit_array(v, k) {
                None => {
                    return None;
                },
                Some((c, x)) => {
                    keybindings = c;
                    k2 = x;
                },
            }
        } else if str_eq(key.as_str(), "preferences") {
            match read_unit_array(v, k) {
                None => {
                    return None;
                },
                Some((c, x)) => {
                    preferences = c;
                    k2 = x;
                },
            }
        } else if str_eq(key.as_str(), "themes") {
            match read_unit_array(v, k) {
                None => {
                    return None;
                },
                Some((c, x)) => {
                    themes = c;
                    k2 = x;
                },
            }
        } else if str_eq(key.as_str(), "views") {
            match read_unit_array(v, k) {
                None => {
                    return None;
                },
                Some((c, x)) => {
                    views = c;
                    k2 = x;
                },
            }
        } else {
            match skip_value(v, k) {
                None => {
                    return None;
                },
                Some(x) => {
                    k2 = x;
                },
            }
        }
        let k3 = skip_ws(v, k2);
        if k3 >= v.len() {
            return None;
        }
        if v[k3] == '}' {
            j = k3 + 1;
            break;
        }
        if v[k3] != ',' {
            return None;
        }
        let j3 = skip_ws(v, k3 + 1);
        if j3 <= j {
            return None;
        }
        j = j3;
        first = false;
    }
    let cm = ContributesManifest {
        commands,
        command_palettes: match command_palettes {
            None => None,
            Some(n) => Some(fill_units(CommandPalettesManifest {  }, n)),
        },
        icons: match icons {
            None => None,
            Some(n) => Some(fill_units(IconsManifest {  }, n)),
        },
        icon_themes: match icon_themes {
            None => None,
            Some(n) => Some(fill_units(IconThemesManifest {  }, n)),
        },
        keybindings: match keybindings {
            None => None,
            Some(n) => Some(fill_units(KeybindingManifest {  }, n)),
        },
        preferences: match preferences {
            None => None,
            Some(n) => Some(fill_units(PreferenceManifest {  }, n)),
        },
        themes: match themes {
            None => None,
            Some(n) => Some(fill_units(ThemesManifest {  }, n)),
        },
        views: match views {
            None => None,
            Some(n) => Some(fill_units(ViewManifest {  }, n)),
        },
    };
    Some((cm, j))
}

/// Reads a whole manifest document written as ordinary JSON: fields
/// in any order, free whitespace, unknown fields skipped, all eight
/// declared fields required, trailing whitespace allowed, nothing
/// after the document.
pub(crate) fn read_document(v: &Vec<char>) -> (r: Option<ExtensionManifest>)
{
    let i = skip_ws(v, 0);
    if i >= v.len() || v[i] != '{' {
        return None;
    }
    let mut name: Option<String> = None;
    let mut title: Option<String> = None;
    let mut version: Option<String> = None;
    let mut publisher: Option<String> = None;
    let mut license: Option<String> = None;
    let mut description: Option<String> = None;
    let mut icon: Option<String> = None;
    let mut contributes: Option<ContributesManifest> = None;
    let mut j: usize = skip_ws(v, i + 1);
    let mut first = true;
    loop
        invariant
            i < j <= v@.len(),
            v@.len() <= usize::MAX,
        decreases v@.len() - j,
    {
        if j < v.len() && v[j] == '}' && first {
            j += 1;
            break;
        }
        let (key, j2) = match read_string(v, j) {
            None => {
                return None;
            },
            Some(x) => x,
        };
        let mut k = skip_ws(v, j2);
        if k >= v.len() || v[k] != ':' {
            return None;
        }
        k = skip_ws(v, k + 1);
        let k2: usize;
        if str_eq(key.as_str(), "name") {
            match read_string(v, k) {
                None => {
                    return None;
                },
                Some((s, x)) => {
                    name = Some(s);
                    k2 = x;
                },
            }
        } else if str_eq(key.as_str(), "title") {
            match read_string(v, k) {
                None => {
                    return None;
                },
                Some((s, x)) => {
                    title = Some(s);
                    k2 = x;
                },
            }
        } else if str_eq(key.as_str(), "version") {
            match read_string(v, k) {
                None => {
                    return None;
                },
                Some((s, x)) => {
                    version = Some(s);
                    k2 = x;
                },
            }
        } else if str_eq(key.as_str(), "publisher") {
            match read_string(v, k) {
                None => {
                    return None;
                },
                Some((s, x)) => {
                    publisher = Some(s);
                    k2 = x;
                },
            }
        } else if str_eq(key.as_str(), "license") {
            match read_string(v, k) {
                None => {
                    return None;
                },
                Some((s, x)) => {
                    license = Some(s);
                    k2 = x;
                },
            }
        } else if str_eq(key.as_str(), "description") {
            match read_string(v, k) {
                None => {
                    return None;
                },
                Some((s, x)) => {
                    description = Some(s);
                    k2 = x;
                },
            }
        } else if str_eq(key.as_str(), "icon") {
            match read_string(v, k) {
                None => {
                    return None;
                },
                Some((s, x)) => {
                    icon = Some(s);
                    k2 = x;
                },
            }
        } else if str_eq(key.as_str(), "contributes") {
            match read_contributes(v, k) {
                None => {
                    return None;
                },
                Some((c, x)) => {
                    contributes = Some(c);
                    k2 = x;
                },
            }
        } else {
            match skip_value(v, k) {
                None => {
                    return None;
                },
                Some(x) => {
                    k2 = x;
                },
            }
        }
        let k3 = skip_ws(v, k2);
        if k3 >= v.len() {
            return None;
        }
        if v[k3] == '}' {
            j = k3 + 1;
            break;
        }
        if v[k3] != ',' {
            return None;
        }
        let j3 = skip_ws(v, k3 + 1);
        if j3 <= j {
            return None;
        }
        j = j3;
        first = false;
    }
    if skip_ws(v, j) != v.len() {
        return None;
    }
    let name = match name {
        None => {
            return None;
        },
        Some(s) => s,
    };
    let title = match title {
        None => {
            return None;
        },
        Some(s) => s,
    };
    let version = match version {
        None => {
            return None;
        },
        Some(s) => s,
    };
    let publisher = match publisher {
        None => {
            return None;
        },
        Some(s) => s,
    };
    let license = match license {
        None => {
            return None;
        },
        Some(s) => s,
    };
    let description = match description {
        None => {
            return None;
        },
        Some(s) => s,
    };
    let icon = match icon {
        None => {
            return None;
        },
        Some(s) => s,
    };
    let contributes = match contributes {
        None => {
            return None;
        },
        Some(c) => c,
    };
    Some(
        ExtensionManifest {
            name,
            title,
            version,
            publisher,
            license,
            description,
            icon,
            contributes,
        },
    )
}

} // verus!
