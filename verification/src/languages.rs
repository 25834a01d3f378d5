use vstd::prelude::*;
use vstd::string::StrSliceExecFns;
use vstd::string::StringExecFns;

verus! {

/// A user-defined language profile: file extension and comment syntax,
/// together with the single mutation-marker token.
#[derive(Debug, Clone, PartialEq, Eq)]
pub struct CustomLanguage {
    pub name: String,
    pub extension: String,
    pub comment_begin: String,
    pub comment_end: String,
    pub mutation_marker: String,
}

/// A language the mutation syntax can be embedded in.  Each language maps to
/// a comment-delimiter pair and a mutation marker; the marker distinguishes
/// this library's annotations from ordinary comments.
#[derive(Debug, Clone, PartialEq, Eq)]
pub enum Language {
    Rocq,
    Haskell,
    Racket,
    Rust,
    OCaml,
    Python,
    Custom(CustomLanguage),
}

impl Language {
    /// The file extension associated with the language.
    pub open spec fn spec_file_extension(&self) -> Seq<char> {
        match self {
            Language::Rocq => seq!['v'],
            Language::Haskell => seq!['h', 's'],
            Language::Racket => seq!['r', 'k', 't'],
            Language::Rust => seq!['r', 's'],
            Language::OCaml => seq!['m', 'l'],
            Language::Python => seq!['p', 'y'],
            Language::Custom(c) => c.extension@,
        }
    }

    /// The token that opens a comment.
    pub open spec fn spec_comment_begin(&self) -> Seq<char> {
        match self {
            Language::Rocq => seq!['(', '*'],
            Language::Haskell => seq!['{', '-'],
            Language::Racket => seq!['#', '|'],
            Language::Rust => seq!['/', '*'],
            Language::OCaml => seq!['(', '*'],
            Language::Python => seq!['#'],
            Language::Custom(c) => c.comment_begin@,
        }
    }

    /// The token that closes a comment.
    pub open spec fn spec_comment_end(&self) -> Seq<char> {
        match self {
            Language::Rocq => seq!['*', ')'],
            Language::Haskell => seq!['-', '}'],
            Language::Racket => seq!['|', '#'],
            Language::Rust => seq!['*', '/'],
            Language::OCaml => seq!['*', ')'],
            Language::Python => seq!['\n'],
            Language::Custom(c) => c.comment_end@,
        }
    }

    /// The mutation marker character (a string, to allow custom profiles).
    pub open spec fn spec_mutation_marker(&self) -> Seq<char> {
        match self {
            Language::Rocq
            | Language::Haskell
            | Language::Racket
            | Language::OCaml
            | Language::Python => seq!['!'],
            Language::Rust => seq!['|'],
            Language::Custom(c) => c.mutation_marker@,
        }
    }

    pub fn file_extension(&self) -> (r: &str)
        ensures
            r@ == self.spec_file_extension(),
    {
        proof {
            reveal_strlit("v");
            reveal_strlit("hs");
            reveal_strlit("rkt");
            reveal_strlit("rs");
            reveal_strlit("ml");
            reveal_strlit("py");
        }
        match self {
            Language::Rocq => "v",
            Language::Haskell => "hs",
            Language::Racket => "rkt",
            Language::Rust => "rs",
            Language::OCaml => "ml",
            Language::Python => "py",
            Language::Custom(c) => c.extension.as_str(),
        }
    }

    pub fn comment_begin(&self) -> (r: String)
        ensures
            r@ == self.spec_comment_begin(),
    {
        proof {
            reveal_strlit("(*");
            reveal_strlit("{-");
            reveal_strlit("#|");
            reveal_strlit("/*");
            reveal_strlit("#");
        }
        match self {
            Language::Rocq => String::from_str("(*"),
            Language::Haskell => String::from_str("{-"),
            Language::Racket => String::from_str("#|"),
            Language::Rust => String::from_str("/*"),
            Language::OCaml => String::from_str("(*"),
            Language::Python => String::from_str("#"),
            Language::Custom(c) => c.comment_begin.clone(),
        }
    }

    pub fn comment_end(&self) -> (r: String)
        ensures
            r@ == self.spec_comment_end(),
    {
        proof {
            reveal_strlit("*)");
            reveal_strlit("-}");
            reveal_strlit("|#");
            reveal_strlit("*/");
            reveal_strlit("\n");
        }
        match self {
            Language::Rocq => String::from_str("*)"),
            Language::Haskell => String::from_str("-}"),
            Language::Racket => String::from_str("|#"),
            Language::Rust => String::from_str("*/"),
            Language::OCaml => String::from_str("*)"),
            Language::Python => String::from_str("\n"),
            Language::Custom(c) => c.comment_end.clone(),
        }
    }

    pub fn mutation_marker(&self) -> (r: &str)
        ensures
            r@ == self.spec_mutation_marker(),
    {
        proof {
            reveal_strlit("!");
            reveal_strlit("|");
        }
        match self {
            Language::Rocq
            | Language::Haskell
            | Language::Racket
            | Language::OCaml
            | Language::Python => "!",
            Language::Rust => "|",
            Language::Custom(c) => c.mutation_marker.as_str(),
        }
    }
}

/// ASCII case-insensitive equality of two characters.
pub open spec fn char_eq_ci(a: char, b: char) -> bool {
    let x = a as u32;
    let y = b as u32;
    x == y || (65 <= x && x <= 90 && y == x + 32) || (65 <= y && y <= 90 && x == y + 32)
}

/// ASCII case-insensitive equality of two texts.
pub open spec fn seq_eq_ci(a: Seq<char>, b: Seq<char>) -> bool {
    a.len() == b.len() && forall|i: int| 0 <= i < a.len() ==> char_eq_ci(a[i], b[i])
}

/// Exact string equality.
pub(crate) fn str_eq_pub(a: &str, b: &str) -> (r: bool)
    ensures
        r == (a@ == b@),
{
    let an = a.unicode_len();
    let bn = b.unicode_len();
    if an != bn {
        return false;
    }
    let mut i: usize = 0;
    while i < an
        invariant
            0 <= i <= an,
            an == a@.len(),
            an == b@.len(),
            forall|q: int| 0 <= q < i ==> a@[q] == b@[q],
        decreases an - i,
    {
        if a.get_char(i) != b.get_char(i) {
            proof {
                assert(a@ != b@) by {
                    if a@ == b@ {
                        assert(a@[i as int] == b@[i as int]);
                    }
                }
            }
            return false;
        }
        i = i + 1;
    }
    proof {
        assert(a@ =~= b@);
    }
    true
}

/// ASCII case-insensitive string equality.
fn str_eq_ci(a: &str, b: &str) -> (r: bool)
    ensures
        r == seq_eq_ci(a@, b@),
{
    let an = a.unicode_len();
    let bn = b.unicode_len();
    if an != bn {
        return false;
    }
    let mut i: usize = 0;
    while i < an
        invariant
            0 <= i <= an,
            an == a@.len(),
            an == b@.len(),
            forall|q: int| 0 <= q < i ==> char_eq_ci(a@[q], b@[q]),
        decreases an - i,
    {
        let ca = a.get_char(i);
        let cbb = b.get_char(i);
        let x = ca as u32;
        let y = cbb as u32;
        let same = x == y || (65 <= x && x <= 90 && y == x + 32) || (65 <= y && y <= 90 && x == y
            + 32);
        proof {
            assert(ca == a@[i as int] && cbb == b@[i as int]);
            assert(same == char_eq_ci(a@[i as int], b@[i as int]));
        }
        if !same {
            return false;
        }
        i = i + 1;
    }
    true
}

/// The first custom language with the given extension.
pub open spec fn spec_custom_by_extension(customs: Seq<CustomLanguage>, ext: Seq<char>) -> Option<
    CustomLanguage,
>
    decreases customs.len(),
{
    if customs.len() == 0 {
        None
    } else if customs[0].extension@ == ext {
        Some(customs[0])
    } else {
        spec_custom_by_extension(customs.drop_first(), ext)
    }
}

/// The first custom language with the given name.
pub open spec fn spec_custom_by_name(customs: Seq<CustomLanguage>, name: Seq<char>) -> Option<
    CustomLanguage,
>
    decreases customs.len(),
{
    if customs.len() == 0 {
        None
    } else if customs[0].name@ == name {
        Some(customs[0])
    } else {
        spec_custom_by_name(customs.drop_first(), name)
    }
}

/// The language a file extension maps to.
pub open spec fn spec_extension_to_language(ext: Seq<char>, customs: Seq<CustomLanguage>) -> Option<
    Language,
> {
    if ext == seq!['v'] {
        Some(Language::Rocq)
    } else if ext == seq!['h', 's'] {
        Some(Language::Haskell)
    } else if ext == seq!['r', 'k', 't'] {
        Some(Language::Racket)
    } else if ext == seq!['r', 's'] {
        Some(Language::Rust)
    } else if ext == seq!['m', 'l'] {
        Some(Language::OCaml)
    } else {
        match spec_custom_by_extension(customs, ext) {
            Some(c) => Some(Language::Custom(c)),
            None => None,
        }
    }
}

/// The language a name denotes: the built-in names compare ASCII
/// case-insensitively, custom names exactly.
pub open spec fn spec_name_to_language(name: Seq<char>, customs: Seq<CustomLanguage>) -> Option<
    Language,
> {
    if seq_eq_ci(name, seq!['r', 'o', 'c', 'q']) {
        Some(Language::Rocq)
    } else if seq_eq_ci(name, seq!['h', 'a', 's', 'k', 'e', 'l', 'l']) {
        Some(Language::Haskell)
    } else if seq_eq_ci(name, seq!['r', 'a', 'c', 'k', 'e', 't']) {
        Some(Language::Racket)
    } else if seq_eq_ci(name, seq!['r', 'u', 's', 't']) {
        Some(Language::Rust)
    } else if seq_eq_ci(name, seq!['o', 'c', 'a', 'm', 'l']) {
        Some(Language::OCaml)
    } else if seq_eq_ci(name, seq!['p', 'y', 't', 'h', 'o', 'n']) {
        Some(Language::Python)
    } else {
        match spec_custom_by_name(customs, name) {
            Some(c) => Some(Language::Custom(c)),
            None => None,
        }
    }
}

/// Clones a custom language profile.
fn clone_custom(c: &CustomLanguage) -> (r: CustomLanguage)
    ensures
        r == *c,
{
    CustomLanguage {
        name: c.name.clone(),
        extension: c.extension.clone(),
        comment_begin: c.comment_begin.clone(),
        comment_end: c.comment_end.clone(),
        mutation_marker: c.mutation_marker.clone(),
    }
}

impl Language {
    /// Maps a file extension to its language, consulting the custom
    /// profiles for unknown extensions.
    pub fn extension_to_language(ext: &str, custom_languages: &Vec<CustomLanguage>) -> (r: Option<
        Language,
    >)
        ensures
            r == spec_extension_to_language(ext@, custom_languages@),
    {
        proof {
            reveal_strlit("v");
            reveal_strlit("hs");
            reveal_strlit("rkt");
            reveal_strlit("rs");
            reveal_strlit("ml");
            assert("v"@ =~= seq!['v']);
            assert("hs"@ =~= seq!['h', 's']);
            assert("rkt"@ =~= seq!['r', 'k', 't']);
            assert("rs"@ =~= seq!['r', 's']);
            assert("ml"@ =~= seq!['m', 'l']);
        }
        if str_eq_pub(ext, "v") {
            return Some(Language::Rocq);
        }
        if str_eq_pub(ext, "hs") {
            return Some(Language::Haskell);
        }
        if str_eq_pub(ext, "rkt") {
            return Some(Language::Racket);
        }
        if str_eq_pub(ext, "rs") {
            return Some(Language::Rust);
        }
        if str_eq_pub(ext, "ml") {
            return Some(Language::OCaml);
        }
        proof {
            assert(custom_languages@.skip(0) =~= custom_languages@);
        }
        let mut i: usize = 0;
        while i < custom_languages.len()
            invariant
                i <= custom_languages@.len(),
                spec_extension_to_language(ext@, custom_languages@) == (match spec_custom_by_extension(
                    custom_languages@.skip(i as int),
                    ext@,
                ) {
                    Some(c) => Some(Language::Custom(c)),
                    None => None,
                }),
            decreases custom_languages@.len() - i,
        {
            proof {
                assert(custom_languages@.skip(i as int)[0] == custom_languages@[i as int]);
                assert(custom_languages@.skip(i as int).drop_first() =~= custom_languages@.skip(
                    i as int + 1,
                ));
            }
            if str_eq_pub(custom_languages[i].extension.as_str(), ext) {
                proof {
                    assert(custom_languages@[i as int].extension@ == ext@);
                    assert(spec_custom_by_extension(custom_languages@.skip(i as int), ext@)
                        == Some(custom_languages@[i as int]));
                }
                let cc = clone_custom(&custom_languages[i]);
                proof {
                    assert(cc == custom_languages@[i as int]);
                }
                return Some(Language::Custom(cc));
            }
            i = i + 1;
        }
        proof {
            assert(custom_languages@.skip(custom_languages@.len() as int)
                =~= Seq::<CustomLanguage>::empty());
        }
        None
    }

    /// Maps a language name to its language: built-in names match ASCII
    /// case-insensitively, custom names exactly.
    pub fn name_to_language(name: &str, custom_languages: &Vec<CustomLanguage>) -> (r: Option<
        Language,
    >)
        ensures
            r == spec_name_to_language(name@, custom_languages@),
    {
        proof {
            reveal_strlit("rocq");
            reveal_strlit("haskell");
            reveal_strlit("racket");
            reveal_strlit("rust");
            reveal_strlit("ocaml");
            reveal_strlit("python");
            assert("rocq"@ =~= seq!['r', 'o', 'c', 'q']);
            assert("haskell"@ =~= seq!['h', 'a', 's', 'k', 'e', 'l', 'l']);
            assert("racket"@ =~= seq!['r', 'a', 'c', 'k', 'e', 't']);
            assert("rust"@ =~= seq!['r', 'u', 's', 't']);
            assert("ocaml"@ =~= seq!['o', 'c', 'a', 'm', 'l']);
            assert("python"@ =~= seq!['p', 'y', 't', 'h', 'o', 'n']);
        }
        if str_eq_ci(name, "rocq") {
            return Some(Language::Rocq);
        }
        if str_eq_ci(name, "haskell") {
            return Some(Language::Haskell);
        }
        if str_eq_ci(name, "racket") {
            return Some(Language::Racket);
        }
        if str_eq_ci(name, "rust") {
            return Some(Language::Rust);
        }
        if str_eq_ci(name, "ocaml") {
            return Some(Language::OCaml);
        }
        if str_eq_ci(name, "python") {
            return Some(Language::Python);
        }
        proof {
            assert(custom_languages@.skip(0) =~= custom_languages@);
        }
        let mut i: usize = 0;
        while i < custom_languages.len()
            invariant
                i <= custom_languages@.len(),
                spec_name_to_language(name@, custom_languages@) == (match spec_custom_by_name(
                    custom_languages@.skip(i as int),
                    name@,
                ) {
                    Some(c) => Some(Language::Custom(c)),
                    None => None,
                }),
            decreases custom_languages@.len() - i,
        {
            proof {
                assert(custom_languages@.skip(i as int)[0] == custom_languages@[i as int]);
                assert(custom_languages@.skip(i as int).drop_first() =~= custom_languages@.skip(
                    i as int + 1,
                ));
            }
            if str_eq_pub(custom_languages[i].name.as_str(), name) {
                proof {
                    assert(custom_languages@[i as int].name@ == name@);
                    assert(spec_custom_by_name(custom_languages@.skip(i as int), name@)
                        == Some(custom_languages@[i as int]));
                }
                let cc = clone_custom(&custom_languages[i]);
                proof {
                    assert(cc == custom_languages@[i as int]);
                }
                return Some(Language::Custom(cc));
            }
            i = i + 1;
        }
        proof {
            assert(custom_languages@.skip(custom_languages@.len() as int)
                =~= Seq::<CustomLanguage>::empty());
        }
        None
    }

    /// The variation header token around a title:
    /// `{comment_begin}{marker} {title}{comment_end}`.
    pub fn variation_begin(&self, name: &str) -> (r: String)
        ensures
            r@ == self.spec_comment_begin() + self.spec_mutation_marker() + seq![' '] + name@
                + self.spec_comment_end(),
    {
        proof {
            reveal_strlit(" ");
            assert(" "@ =~= seq![' ']);
        }
        let mut out = self.comment_begin();
        out.append(self.mutation_marker());
        out.append(" ");
        out.append(name);
        let ce = self.comment_end();
        out.append(ce.as_str());
        proof {
            assert(out@ =~= self.spec_comment_begin() + self.spec_mutation_marker() + seq![' ']
                + name@ + self.spec_comment_end());
        }
        out
    }

    /// The variation end token: `{comment_begin} {marker}{comment_end}`.
    pub fn variation_end(&self) -> (r: String)
        ensures
            r@ == self.spec_comment_begin() + seq![' '] + self.spec_mutation_marker()
                + self.spec_comment_end(),
    {
        proof {
            reveal_strlit(" ");
            assert(" "@ =~= seq![' ']);
        }
        let mut out = self.comment_begin();
        out.append(" ");
        out.append(self.mutation_marker());
        let ce = self.comment_end();
        out.append(ce.as_str());
        proof {
            assert(out@ =~= self.spec_comment_begin() + seq![' '] + self.spec_mutation_marker()
                + self.spec_comment_end());
        }
        out
    }

    /// The variant header opening token: `{comment_begin}{marker}{marker}`.
    pub fn variant_header_begin(&self) -> (r: String)
        ensures
            r@ == self.spec_comment_begin() + self.spec_mutation_marker()
                + self.spec_mutation_marker(),
    {
        let mut out = self.comment_begin();
        out.append(self.mutation_marker());
        out.append(self.mutation_marker());
        out
    }

    /// The variant header closing token: the comment end.
    pub fn variant_header_end(&self) -> (r: String)
        ensures
            r@ == self.spec_comment_end(),
    {
        self.comment_end()
    }

    /// The inactive-body opening token: `{comment_begin}{marker}`.
    pub fn variant_body_begin(&self) -> (r: String)
        ensures
            r@ == self.spec_comment_begin() + self.spec_mutation_marker(),
    {
        let mut out = self.comment_begin();
        out.append(self.mutation_marker());
        out
    }

    /// The inactive-body closing token: the comment end.
    pub fn variant_body_end(&self) -> (r: String)
        ensures
            r@ == self.spec_comment_end(),
    {
        self.comment_end()
    }
}

} // verus!
