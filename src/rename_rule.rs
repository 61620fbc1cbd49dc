//! Case conventions for field and variant names.
use vstd::prelude::*;

use crate::text::{chars_of, push_char, same_text};

verus! {

/// The different possible ways to change case of fields in a struct, or
/// variants in an enum.
#[derive(Copy, Clone, Debug, Default, PartialEq, Eq, Structural)]
pub enum RenameRule {
    /// Don't apply a default rename rule.
    #[default]
    Unchanged,
    /// Rename direct children to "lowercase" style.
    LowerCase,
    /// Rename direct children to "UPPERCASE" style.
    UpperCase,
    /// Rename direct children to "PascalCase" style.
    PascalCase,
    /// Rename direct children to "camelCase" style.
    CamelCase,
    /// Rename direct children to "snake_case" style.
    SnakeCase,
    /// Rename direct children to "SCREAMING_SNAKE_CASE" style.
    ScreamingSnakeCase,
    /// Rename direct children to "kebab-case" style.
    KebabCase,
    /// Rename direct children to "SCREAMING-KEBAB-CASE" style.
    ScreamingKebabCase,
}

/// The rule a `rename_all` value names; `None` for an unknown value.
pub open spec fn rule_named(s: Seq<char>) -> RenameRule {
    if s == "lowercase"@ {
        RenameRule::LowerCase
    } else if s == "UPPERCASE"@ {
        RenameRule::UpperCase
    } else if s == "PascalCase"@ {
        RenameRule::PascalCase
    } else if s == "camelCase"@ {
        RenameRule::CamelCase
    } else if s == "snake_case"@ {
        RenameRule::SnakeCase
    } else if s == "SCREAMING_SNAKE_CASE"@ {
        RenameRule::ScreamingSnakeCase
    } else if s == "kebab-case"@ {
        RenameRule::KebabCase
    } else if s == "SCREAMING-KEBAB-CASE"@ {
        RenameRule::ScreamingKebabCase
    } else {
        RenameRule::Unchanged
    }
}

/// `c` in ASCII lower case.
pub open spec fn lower_char(c: char) -> char {
    if 'A' <= c <= 'Z' {
        ((c as u32) + 32) as char
    } else {
        c
    }
}

/// `c` in ASCII upper case.
pub open spec fn upper_char(c: char) -> char {
    if 'a' <= c <= 'z' {
        ((c as u32) - 32) as char
    } else {
        c
    }
}

/// Whether `c` has the Unicode `Uppercase` property.
pub uninterp spec fn uppercase_letter(c: char) -> bool;

/// Relies on `char::is_uppercase`: whether `c` has the Unicode `Uppercase` property.
#[verifier::external_body]
fn is_uppercase(c: char) -> (r: bool)
    ensures
        r == uppercase_letter(c),
{
    c.is_uppercase()
}

fn to_lower(c: char) -> (r: char)
    ensures
        r == lower_char(c),
{
    if 'A' <= c && c <= 'Z' {
        ((c as u8) + 32) as char
    } else {
        c
    }
}

fn to_upper(c: char) -> (r: char)
    ensures
        r == upper_char(c),
{
    if 'a' <= c && c <= 'z' {
        ((c as u8) - 32) as char
    } else {
        c
    }
}

/// `s` in ASCII lower case.
pub open spec fn lower_all(s: Seq<char>) -> Seq<char> {
    s.map_values(|c: char| lower_char(c))
}

/// `s` in ASCII upper case.
pub open spec fn upper_all(s: Seq<char>) -> Seq<char> {
    s.map_values(|c: char| upper_char(c))
}

/// `s` with each `_` turned into `-`.
pub open spec fn dashed(s: Seq<char>) -> Seq<char> {
    s.map_values(|c: char| if c == '_' { '-' } else { c })
}

/// `s` with its first character in ASCII lower case.
pub open spec fn lower_first(s: Seq<char>) -> Seq<char> {
    if s.len() == 0 {
        s
    } else {
        seq![lower_char(s[0])] + s.subrange(1, s.len() as int)
    }
}

/// The first `n` characters of `s` in snake case: an `_` before each upper
/// case letter but the first character, and every letter in lower case.
pub open spec fn snake(s: Seq<char>, n: int) -> Seq<char>
    decreases n,
{
    if n <= 0 || n > s.len() {
        Seq::empty()
    } else {
        let c = s[n - 1];
        let sep = if n - 1 > 0 && uppercase_letter(c) {
            seq!['_']
        } else {
            Seq::empty()
        };
        snake(s, n - 1) + sep + seq![lower_char(c)]
    }
}

/// The first `n` characters of `s` in Pascal case: `_` dropped, the first
/// character of each word in ASCII upper case.
pub open spec fn pascal(s: Seq<char>, n: int) -> Seq<char>
    decreases n,
{
    if n <= 0 || n > s.len() {
        Seq::empty()
    } else {
        let c = s[n - 1];
        if c == '_' {
            pascal(s, n - 1)
        } else if n - 1 == 0 || s[n - 2] == '_' {
            pascal(s, n - 1).push(upper_char(c))
        } else {
            pascal(s, n - 1).push(c)
        }
    }
}

/// A variant name as the rule writes it.
pub open spec fn variant_name(rule: RenameRule, v: Seq<char>) -> Seq<char> {
    match rule {
        RenameRule::Unchanged | RenameRule::PascalCase => v,
        RenameRule::LowerCase => lower_all(v),
        RenameRule::UpperCase => upper_all(v),
        RenameRule::CamelCase => lower_first(v),
        RenameRule::SnakeCase => snake(v, v.len() as int),
        RenameRule::ScreamingSnakeCase => upper_all(snake(v, v.len() as int)),
        RenameRule::KebabCase => dashed(snake(v, v.len() as int)),
        RenameRule::ScreamingKebabCase => dashed(upper_all(snake(v, v.len() as int))),
    }
}

/// A field name as the rule writes it.
pub open spec fn field_name(rule: RenameRule, f: Seq<char>) -> Seq<char> {
    match rule {
        RenameRule::Unchanged | RenameRule::LowerCase | RenameRule::SnakeCase => f,
        RenameRule::UpperCase | RenameRule::ScreamingSnakeCase => upper_all(f),
        RenameRule::PascalCase => pascal(f, f.len() as int),
        RenameRule::CamelCase => lower_first(pascal(f, f.len() as int)),
        RenameRule::KebabCase => dashed(f),
        RenameRule::ScreamingKebabCase => dashed(upper_all(f)),
    }
}

/// Maps each character of `s`: with `how` 0 to ASCII lower case, 1 to ASCII
/// upper case, 2 turning `_` into `-`.
fn map_chars(s: &Vec<char>, how: u8) -> (r: Vec<char>)
    requires
        how <= 2,
    ensures
        how == 0 ==> r@ == lower_all(s@),
        how == 1 ==> r@ == upper_all(s@),
        how == 2 ==> r@ == dashed(s@),
{
    let mut r: Vec<char> = Vec::new();
    let mut i: usize = 0;
    while i < s.len()
        invariant
            how <= 2,
            i <= s@.len(),
            how == 0 ==> r@ == lower_all(s@.subrange(0, i as int)),
            how == 1 ==> r@ == upper_all(s@.subrange(0, i as int)),
            how == 2 ==> r@ == dashed(s@.subrange(0, i as int)),
        decreases s.len() - i,
    {
        let c = s[i];
        let m = if how == 0 {
            to_lower(c)
        } else if how == 1 {
            to_upper(c)
        } else if c == '_' {
            '-'
        } else {
            c
        };
        r.push(m);
        proof {
            let p = s@.subrange(0, i as int + 1);
            assert(p =~= s@.subrange(0, i as int).push(c));
            assert(lower_all(p) =~= lower_all(s@.subrange(0, i as int)).push(lower_char(c)));
            assert(upper_all(p) =~= upper_all(s@.subrange(0, i as int)).push(upper_char(c)));
            assert(dashed(p) =~= dashed(s@.subrange(0, i as int)).push(
                if c == '_' { '-' } else { c },
            ));
        }
        i = i + 1;
    }
    assert(s@.subrange(0, i as int) =~= s@);
    r
}

fn to_snake(s: &Vec<char>) -> (r: Vec<char>)
    ensures
        r@ == snake(s@, s@.len() as int),
{
    let mut r: Vec<char> = Vec::new();
    let mut i: usize = 0;
    while i < s.len()
        invariant
            i <= s@.len(),
            r@ == snake(s@, i as int),
        decreases s.len() - i,
    {
        let c = s[i];
        if i > 0 && is_uppercase(c) {
            r.push('_');
        }
        r.push(to_lower(c));
        assert(r@ =~= snake(s@, i as int + 1));
        i = i + 1;
    }
    r
}

fn to_pascal(s: &Vec<char>) -> (r: Vec<char>)
    ensures
        r@ == pascal(s@, s@.len() as int),
{
    let mut r: Vec<char> = Vec::new();
    let mut capitalize = true;
    let mut i: usize = 0;
    while i < s.len()
        invariant
            i <= s@.len(),
            r@ == pascal(s@, i as int),
            capitalize == (i == 0 || s@[i - 1] == '_'),
        decreases s.len() - i,
    {
        let c = s[i];
        if c == '_' {
            capitalize = true;
        } else if capitalize {
            r.push(to_upper(c));
            capitalize = false;
        } else {
            r.push(c);
        }
        i = i + 1;
    }
    r
}

fn first_to_lower(s: Vec<char>) -> (r: Vec<char>)
    ensures
        r@ == lower_first(s@),
{
    let ghost orig = s@;
    let mut s = s;
    if s.len() > 0 {
        let c = to_lower(s[0]);
        s.set(0, c);
        assert(s@ =~= lower_first(orig));
    }
    s
}

fn string_from(cs: &Vec<char>) -> (r: String)
    ensures
        r@ == cs@,
{
    let mut r = String::new();
    let mut i: usize = 0;
    while i < cs.len()
        invariant
            i <= cs@.len(),
            r@ == cs@.subrange(0, i as int),
        decreases cs.len() - i,
    {
        push_char(&mut r, cs[i]);
        assert(cs@.subrange(0, i as int + 1) =~= cs@.subrange(0, i as int).push(cs@[i as int]));
        i = i + 1;
    }
    assert(cs@.subrange(0, i as int) =~= cs@);
    r
}

impl RenameRule {
    /// The rule a `rename_all` value names; [`RenameRule::Unchanged`] for an
    /// unknown value.
    pub fn from_str(rename_all_str: &str) -> (r: RenameRule)
        ensures
            r == rule_named(rename_all_str@),
    {
        let s = rename_all_str;
        if same_text(s, "lowercase") {
            RenameRule::LowerCase
        } else if same_text(s, "UPPERCASE") {
            RenameRule::UpperCase
        } else if same_text(s, "PascalCase") {
            RenameRule::PascalCase
        } else if same_text(s, "camelCase") {
            RenameRule::CamelCase
        } else if same_text(s, "snake_case") {
            RenameRule::SnakeCase
        } else if same_text(s, "SCREAMING_SNAKE_CASE") {
            RenameRule::ScreamingSnakeCase
        } else if same_text(s, "kebab-case") {
            RenameRule::KebabCase
        } else if same_text(s, "SCREAMING-KEBAB-CASE") {
            RenameRule::ScreamingKebabCase
        } else {
            RenameRule::Unchanged
        }
    }

    /// Applies the rule to an enum variant name, written in Pascal case.
    pub fn apply_to_variant(self, variant: &str) -> (r: String)
        ensures
            r@ == variant_name(self, variant@),
    {
        let v = chars_of(variant);
        let out = match self {
            RenameRule::Unchanged | RenameRule::PascalCase => v,
            RenameRule::LowerCase => map_chars(&v, 0),
            RenameRule::UpperCase => map_chars(&v, 1),
            RenameRule::CamelCase => first_to_lower(v),
            RenameRule::SnakeCase => to_snake(&v),
            RenameRule::ScreamingSnakeCase => map_chars(&to_snake(&v), 1),
            RenameRule::KebabCase => map_chars(&to_snake(&v), 2),
            RenameRule::ScreamingKebabCase => map_chars(&map_chars(&to_snake(&v), 1), 2),
        };
        string_from(&out)
    }

    /// Applies the rule to a struct field name, written in snake case.
    pub fn apply_to_field(self, field: &str) -> (r: String)
        ensures
            r@ == field_name(self, field@),
    {
        let f = chars_of(field);
        let out = match self {
            RenameRule::Unchanged | RenameRule::LowerCase | RenameRule::SnakeCase => f,
            RenameRule::UpperCase | RenameRule::ScreamingSnakeCase => map_chars(&f, 1),
            RenameRule::PascalCase => to_pascal(&f),
            RenameRule::CamelCase => first_to_lower(to_pascal(&f)),
            RenameRule::KebabCase => map_chars(&f, 2),
            RenameRule::ScreamingKebabCase => map_chars(&map_chars(&f, 1), 2),
        };
        string_from(&out)
    }
}

} // verus!
