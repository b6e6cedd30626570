use vstd::prelude::*;
use crate::text::{chars_of, same_text, string_of, trim, trimmed};

verus! {

/// The spending categories the bot accepts.
#[derive(Debug, Clone, Copy, PartialEq, Eq, Structural, Hash)]
pub enum Category {
    Cafe,
    Comida,
    Transporte,
    Salud,
    Super,
    Otros,
}

/// Every category, in the order replies list them.
pub const ALL_CATEGORIES: [Category; 6] = [
    Category::Cafe,
    Category::Comida,
    Category::Transporte,
    Category::Salud,
    Category::Super,
    Category::Otros,
];

/// The canonical spelling of a category.
pub open spec fn category_name(c: Category) -> Seq<char> {
    match c {
        Category::Cafe => "cafe"@,
        Category::Comida => "comida"@,
        Category::Transporte => "transporte"@,
        Category::Salud => "salud"@,
        Category::Super => "super"@,
        Category::Otros => "otros"@,
    }
}

impl Category {
    /// The canonical spelling, and the exact text stored in the `category`
    /// column. Changing one of these strings orphans existing rows.
    pub fn as_str(self) -> (s: &'static str)
        ensures
            s@ == category_name(self),
    {
        match self {
            Category::Cafe => "cafe",
            Category::Comida => "comida",
            Category::Transporte => "transporte",
            Category::Salud => "salud",
            Category::Super => "super",
            Category::Otros => "otros",
        }
    }
}

/// The error of reading a word that names no category.
#[derive(Debug, Clone, Copy, PartialEq, Eq, Structural)]
pub struct UnknownCategoryError;

impl UnknownCategoryError {
    /// The text shown for this error.
    pub fn message(&self) -> (s: &'static str)
        ensures
            s@ == "categoria desconocida"@,
    {
        "categoria desconocida"
    }
}

/// What `str::to_lowercase` returns for a string: Unicode lowercase mapping,
/// where one character may become several.
pub uninterp spec fn lowercase(s: Seq<char>) -> Seq<char>;

/// `str::to_lowercase`.
#[verifier::external_body]
pub(crate) fn to_lowercase(s: &str) -> (r: String)
    ensures
        r@ == lowercase(s@),
{
    s.to_lowercase()
}

/// The Spanish accented vowels and `ñ` folded onto ASCII; every other
/// character unchanged.
pub open spec fn fold_accent(c: char) -> char {
    if c == '\u{e1}' || c == '\u{e0}' || c == '\u{e4}' || c == '\u{e2}' {
        'a'
    } else if c == '\u{e9}' || c == '\u{e8}' || c == '\u{eb}' || c == '\u{ea}' {
        'e'
    } else if c == '\u{ed}' || c == '\u{ec}' || c == '\u{ef}' || c == '\u{ee}' {
        'i'
    } else if c == '\u{f3}' || c == '\u{f2}' || c == '\u{f6}' || c == '\u{f4}' {
        'o'
    } else if c == '\u{fa}' || c == '\u{f9}' || c == '\u{fc}' || c == '\u{fb}' {
        'u'
    } else if c == '\u{f1}' {
        'n'
    } else {
        c
    }
}

/// A word as it is compared against the category names: trimmed,
/// lowercased, accents folded.
pub open spec fn normalized(s: Seq<char>) -> Seq<char> {
    lowercase(trim(s)).map_values(|c: char| fold_accent(c))
}

/// The category whose name, or accepted variant, is exactly `n`.
pub open spec fn exact_category(n: Seq<char>) -> Option<Category> {
    if n == "cafe"@ {
        Some(Category::Cafe)
    } else if n == "comida"@ {
        Some(Category::Comida)
    } else if n == "transporte"@ {
        Some(Category::Transporte)
    } else if n == "salud"@ {
        Some(Category::Salud)
    } else if n == "super"@ {
        Some(Category::Super)
    } else if n == "otros"@ || n == "otro"@ {
        Some(Category::Otros)
    } else {
        None
    }
}

/// The category a normalized word names: the word exactly, or else the word
/// with one trailing `s` removed (a plural).
pub open spec fn category_of_normalized(n: Seq<char>) -> Option<Category> {
    match exact_category(n) {
        Some(c) => Some(c),
        None => if n.len() > 0 && n.last() == 's' {
            exact_category(n.drop_last())
        } else {
            None
        },
    }
}

/// The category an already lowercased word names, once its accents are folded.
pub open spec fn category_of_lowered_text(lower: Seq<char>) -> Option<Category> {
    category_of_normalized(lower.map_values(|c: char| fold_accent(c)))
}

/// The category a user's word names: its normalized form exactly, or else
/// that form with one trailing `s` removed (a plural).
pub open spec fn category_named(s: Seq<char>) -> Option<Category> {
    category_of_normalized(normalized(s))
}

fn fold(c: char) -> (r: char)
    ensures
        r == fold_accent(c),
{
    if c == '\u{e1}' || c == '\u{e0}' || c == '\u{e4}' || c == '\u{e2}' {
        'a'
    } else if c == '\u{e9}' || c == '\u{e8}' || c == '\u{eb}' || c == '\u{ea}' {
        'e'
    } else if c == '\u{ed}' || c == '\u{ec}' || c == '\u{ef}' || c == '\u{ee}' {
        'i'
    } else if c == '\u{f3}' || c == '\u{f2}' || c == '\u{f6}' || c == '\u{f4}' {
        'o'
    } else if c == '\u{fa}' || c == '\u{f9}' || c == '\u{fc}' || c == '\u{fb}' {
        'u'
    } else if c == '\u{f1}' {
        'n'
    } else {
        c
    }
}

/// Lowercase and fold the Spanish accented vowels plus `ñ` onto ASCII, so
/// `Café` and `cafe` are the same word.
fn normalize(input: &Vec<char>) -> (r: Vec<char>)
    ensures
        r@ == normalized(input@),
{
    let t = string_of(&trimmed(input));
    let lower = chars_of(to_lowercase(t.as_str()).as_str());
    fold_accents(&lower)
}

fn fold_accents(lower: &Vec<char>) -> (r: Vec<char>)
    ensures
        r@ == lower@.map_values(|c: char| fold_accent(c)),
{
    let mut r: Vec<char> = Vec::new();
    let mut i: usize = 0;
    while i < lower.len()
        invariant
            i <= lower.len(),
            r@ == lower@.take(i as int).map_values(|c: char| fold_accent(c)),
        decreases lower.len() - i,
    {
        r.push(fold(lower[i]));
        assert(lower@.take(i + 1).map_values(|c: char| fold_accent(c)) =~= lower@.take(
            i as int,
        ).map_values(|c: char| fold_accent(c)).push(fold_accent(lower@[i as int])));
        i += 1;
    }
    assert(lower@.take(lower.len() as int) =~= lower@);
    r
}

fn exact(n: &Vec<char>) -> (r: Option<Category>)
    ensures
        r == exact_category(n@),
{
    if same_text(n, "cafe") {
        Some(Category::Cafe)
    } else if same_text(n, "comida") {
        Some(Category::Comida)
    } else if same_text(n, "transporte") {
        Some(Category::Transporte)
    } else if same_text(n, "salud") {
        Some(Category::Salud)
    } else if same_text(n, "super") {
        Some(Category::Super)
    } else if same_text(n, "otros") || same_text(n, "otro") {
        Some(Category::Otros)
    } else {
        None
    }
}

/// The category that `word` names, if any.
pub fn category_from_chars(word: &Vec<char>) -> (r: Result<Category, UnknownCategoryError>)
    ensures
        r == (match category_named(word@) {
            Some(c) => Ok(c),
            None => Err(UnknownCategoryError),
        }),
{
    lookup(&normalize(word))
}

/// The category that a word already lowercased (as `str::to_lowercase` does)
/// names: its accents are folded, then it is looked up, plural included.
pub fn category_of_lowered(lower: &Vec<char>) -> (r: Result<Category, UnknownCategoryError>)
    ensures
        r == (match category_of_lowered_text(lower@) {
            Some(c) => Ok(c),
            None => Err(UnknownCategoryError),
        }),
{
    lookup(&fold_accents(lower))
}

fn lookup(n: &Vec<char>) -> (r: Result<Category, UnknownCategoryError>)
    ensures
        r == (match category_of_normalized(n@) {
            Some(c) => Ok(c),
            None => Err(UnknownCategoryError),
        }),
{
    if let Some(c) = exact(n) {
        return Ok(c);
    }
    // Plurals: `cafes` -> `cafe`. Done after the exact lookup so `otros`,
    // which is canonically plural, is not mangled.
    if n.len() > 0 && n[n.len() - 1] == 's' {
        let mut singular = n.clone();
        singular.pop();
        assert(singular@ =~= n@.drop_last());
        if let Some(c) = exact(&singular) {
            return Ok(c);
        }
    }
    Err(UnknownCategoryError)
}

impl Category {
    /// Reads a category the way users type it: any case, surrounding
    /// whitespace, Spanish accents and a plural `s` are all accepted.
    pub fn from_str(s: &str) -> (r: Result<Category, UnknownCategoryError>)
        ensures
            r == (match category_named(s@) {
                Some(c) => Ok(c),
                None => Err(UnknownCategoryError),
            }),
    {
        category_from_chars(&chars_of(s))
    }
}

impl std::str::FromStr for Category {
    type Err = UnknownCategoryError;

    fn from_str(s: &str) -> (r: Result<Category, UnknownCategoryError>)
        ensures
            r == (match category_named(s@) {
                Some(c) => Ok(c),
                None => Err(UnknownCategoryError),
            }),
    {
        Category::from_str(s)
    }
}

/// The characters of each category name and accepted variant.
pub proof fn lemma_category_literals()
    ensures
        "cafe"@ == seq!['c', 'a', 'f', 'e'],
        "comida"@ == seq!['c', 'o', 'm', 'i', 'd', 'a'],
        "transporte"@ == seq!['t', 'r', 'a', 'n', 's', 'p', 'o', 'r', 't', 'e'],
        "salud"@ == seq!['s', 'a', 'l', 'u', 'd'],
        "super"@ == seq!['s', 'u', 'p', 'e', 'r'],
        "otros"@ == seq!['o', 't', 'r', 'o', 's'],
        "otro"@ == seq!['o', 't', 'r', 'o'],
{
    reveal_strlit("cafe");
    reveal_strlit("comida");
    reveal_strlit("transporte");
    reveal_strlit("salud");
    reveal_strlit("super");
    reveal_strlit("otros");
    reveal_strlit("otro");
}

/// A word whose lowercase form is a category's canonical name names that
/// category, and so does one whose lowercase form is that name with a plural
/// `s`: every name that `as_str` writes reads back as its own category, and
/// the canonical name and its plural, already lowercase, name it too.
pub proof fn law_category_name_reads_back(c: Category, s: Seq<char>)
    ensures
        lowercase(trim(s)) == category_name(c) ==> category_named(s) == Some(c),
        lowercase(trim(s)) == category_name(c) + seq!['s'] ==> category_named(s) == Some(c),
        category_of_lowered_text(category_name(c)) == Some(c),
        category_of_lowered_text(category_name(c) + seq!['s']) == Some(c),
{
    lemma_category_literals();
    let l = lowercase(trim(s));
    let n = normalized(s);
    assert(n == l.map_values(|ch: char| fold_accent(ch)));
    if l == category_name(c) {
        assert(n =~= l);
    }
    if l == category_name(c) + seq!['s'] {
        assert(n =~= l);
        assert(n.drop_last() =~= category_name(c));
    }
    let name = category_name(c);
    assert(name.map_values(|ch: char| fold_accent(ch)) =~= name);
    let plural = name + seq!['s'];
    assert(plural.map_values(|ch: char| fold_accent(ch)) =~= plural);
    assert(plural.drop_last() =~= name);
}

/// Monday-to-Sunday spending cap, in pesos: only `comida` has one.
pub fn weekly_limit(category: Category) -> (r: Option<i64>)
    ensures
        r == (if category == Category::Comida { Some(100_000i64) } else { None::<i64> }),
{
    match category {
        Category::Comida => Some(100_000),
        Category::Cafe | Category::Transporte | Category::Salud | Category::Super
        | Category::Otros => None,
    }
}

} // verus!
