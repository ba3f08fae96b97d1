//! The casing styles in which the name of a function can be logged.
//!
//! Names come in snake_case. The other styles are derived from it character by
//! character; only ASCII letters change their case.

use vstd::prelude::*;

verus! {

/// The upper-case form of an ASCII letter; every other character as it is.
pub open spec fn ascii_upper(c: char) -> char {
    if 'a' <= c && c <= 'z' {
        ((c as u8) - 32) as char
    } else {
        c
    }
}

/// Whether the character at position `i` of `name` starts a word: it follows an
/// underscore, or it is the first one and `lead` says that the first word counts.
pub open spec fn starts_word(name: Seq<char>, i: int, lead: bool) -> bool {
    if i == 0 {
        lead
    } else {
        name[i - 1] == '_'
    }
}

/// `name` without its underscores, each character that starts a word in upper case.
pub open spec fn joined_words(name: Seq<char>, lead: bool) -> Seq<char>
    decreases name.len(),
{
    if name.len() == 0 {
        Seq::empty()
    } else {
        let front = joined_words(name.drop_last(), lead);
        let i = name.len() - 1;
        if name[i] == '_' {
            front
        } else if starts_word(name, i, lead) {
            front.push(ascii_upper(name[i]))
        } else {
            front.push(name[i])
        }
    }
}

/// camelCase: the underscores are dropped and every word but the first starts in
/// upper case.
pub open spec fn camel_case(name: Seq<char>) -> Seq<char> {
    joined_words(name, false)
}

/// PascalCase: the underscores are dropped and every word starts in upper case.
pub open spec fn pascal_case(name: Seq<char>) -> Seq<char> {
    joined_words(name, true)
}

/// SCREAMING_SNAKE_CASE: every ASCII letter in upper case.
pub open spec fn screaming_snake_case(name: Seq<char>) -> Seq<char> {
    name.map_values(|c: char| ascii_upper(c))
}

/// kebab-case: a hyphen for every underscore.
pub open spec fn kebab_case(name: Seq<char>) -> Seq<char> {
    name.map_values(
        |c: char|
            if c == '_' {
                '-'
            } else {
                c
            },
    )
}

/// The styles that are switched on. Several may be on at once; `formatted_name` says
/// which one a name then takes.
#[derive(Clone, Copy, Debug)]
pub struct NameStyles {
    pub snake: bool,
    pub camel: bool,
    pub pascal: bool,
    pub screaming: bool,
    pub kebab: bool,
}

/// The name in the first style that is on, in the order camel, Pascal, screaming,
/// kebab; the name as it is where none of these is on.
pub open spec fn formatted_name(name: Seq<char>, styles: NameStyles) -> Seq<char> {
    if styles.camel {
        camel_case(name)
    } else if styles.pascal {
        pascal_case(name)
    } else if styles.screaming {
        screaming_snake_case(name)
    } else if styles.kebab {
        kebab_case(name)
    } else {
        name
    }
}

impl NameStyles {
    /// No style: names are not logged.
    pub fn none() -> (r: NameStyles)
        ensures
            r == (NameStyles {
                snake: false,
                camel: false,
                pascal: false,
                screaming: false,
                kebab: false,
            }),
    {
        NameStyles { snake: false, camel: false, pascal: false, screaming: false, kebab: false }
    }

    /// Whether any style is on, that is, whether names are logged at all.
    pub fn any(&self) -> (r: bool)
        ensures
            r == (self.snake || self.camel || self.pascal || self.screaming || self.kebab),
    {
        self.snake || self.camel || self.pascal || self.screaming || self.kebab
    }
}

/// The upper-case form of an ASCII letter; every other character as it is.
pub fn to_ascii_upper(c: char) -> (r: char)
    ensures
        r == ascii_upper(c),
{
    if 'a' <= c && c <= 'z' {
        ((c as u8) - 32) as char
    } else {
        c
    }
}

fn join_words(name: &str, lead: bool) -> (r: String)
    ensures
        r@ == joined_words(name@, lead),
{
    let mut r = String::new();
    let mut capitalize = lead;
    for c in it: name.chars()
        invariant
            it.seq() == name@,
            r@ == joined_words(name@.take(it.index() as int), lead),
            capitalize == starts_word(name@, it.index() as int, lead),
    {
        proof {
            let upto = name@.take(it.index() + 1);
            assert(upto.drop_last() =~= name@.take(it.index() as int));
            assert(starts_word(upto, it.index() as int, lead) == starts_word(
                name@,
                it.index() as int,
                lead,
            ));
        }
        if c == '_' {
            capitalize = true;
        } else if capitalize {
            r.push(to_ascii_upper(c));
            capitalize = false;
        } else {
            r.push(c);
        }
    }
    assert(name@.take(name@.len() as int) =~= name@);
    r
}

/// The name in camelCase.
pub fn to_camel_case(snake_case: &str) -> (r: String)
    ensures
        r@ == camel_case(snake_case@),
{
    join_words(snake_case, false)
}

/// The name in PascalCase.
pub fn to_pascal_case(snake_case: &str) -> (r: String)
    ensures
        r@ == pascal_case(snake_case@),
{
    join_words(snake_case, true)
}

/// The name in SCREAMING_SNAKE_CASE.
pub fn to_screaming_snake_case(snake_case: &str) -> (r: String)
    ensures
        r@ == screaming_snake_case(snake_case@),
{
    let mut r = String::new();
    for c in it: snake_case.chars()
        invariant
            it.seq() == snake_case@,
            r@ == screaming_snake_case(snake_case@.take(it.index() as int)),
    {
        r.push(to_ascii_upper(c));
        assert(snake_case@.take(it.index() + 1) =~= snake_case@.take(it.index() as int).push(c));
    }
    assert(snake_case@.take(snake_case@.len() as int) =~= snake_case@);
    r
}

/// The name in kebab-case.
pub fn to_kebab_case(snake_case: &str) -> (r: String)
    ensures
        r@ == kebab_case(snake_case@),
{
    let mut r = String::new();
    for c in it: snake_case.chars()
        invariant
            it.seq() == snake_case@,
            r@ == kebab_case(snake_case@.take(it.index() as int)),
    {
        if c == '_' {
            r.push('-');
        } else {
            r.push(c);
        }
        assert(snake_case@.take(it.index() + 1) =~= snake_case@.take(it.index() as int).push(c));
    }
    assert(snake_case@.take(snake_case@.len() as int) =~= snake_case@);
    r
}

/// The name of a function as it is logged under `styles`.
pub fn get_formatted_function_name(function_name: &str, styles: NameStyles) -> (r: String)
    ensures
        r@ == formatted_name(function_name@, styles),
{
    if styles.camel {
        to_camel_case(function_name)
    } else if styles.pascal {
        to_pascal_case(function_name)
    } else if styles.screaming {
        to_screaming_snake_case(function_name)
    } else if styles.kebab {
        to_kebab_case(function_name)
    } else {
        function_name.to_owned()
    }
}

} // verus!
