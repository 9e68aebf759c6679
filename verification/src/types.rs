//! Small value types shared by the editor front end: editor identifiers,
//! interface languages, code templates and server progress reports.

use vstd::prelude::*;

use crate::chars::{chars_of, string_from_chars};
use crate::decimal::{decimal, decimal_chars};

verus! {

/// Identifier for which editor is being referenced.
#[derive(Clone, Copy, PartialEq, Eq, Hash, Debug)]
pub struct EditorId(pub usize);

/// The label of an editor id, as shown to the user.
pub open spec fn editor_label(id: EditorId) -> Seq<char> {
    seq!['E', 'd', 'i', 't', 'o', 'r', ' '] + decimal(id.0 as nat)
}

impl EditorId {
    /// `Editor <n>`.
    pub fn to_string(&self) -> (res: String)
        ensures
            res@ == editor_label(*self),
    {
        let mut v: Vec<char> = chars_of("Editor ");
        proof {
            reveal_strlit("Editor ");
        }
        let mut d = decimal_chars(self.0);
        v.append(&mut d);
        string_from_chars(v.as_slice())
    }
}

/// The languages the editor interface can be shown in.
#[derive(Clone, Copy, PartialEq, Eq, Hash, Debug)]
pub enum Language {
    English,
    French,
    Spanish,
    German,
    Italian,
    PortugueseBR,
    PortuguesePT,
    ChineseSimplified,
}

/// An interface language as offered in a pick list.
#[derive(Clone, Copy, PartialEq, Eq, Debug)]
pub struct LanguageOption(pub Language);

/// The name a language is listed under, in that language.
pub open spec fn language_label(l: Language) -> Seq<char> {
    match l {
        Language::English => "English"@,
        Language::French => "Français"@,
        Language::Spanish => "Español"@,
        Language::German => "Deutsch"@,
        Language::Italian => "Italiano"@,
        Language::PortugueseBR => "Português (BR)"@,
        Language::PortuguesePT => "Português (PT)"@,
        Language::ChineseSimplified => "简体中文"@,
    }
}

impl LanguageOption {
    /// The languages in the order they are listed.
    pub fn all() -> (res: Vec<LanguageOption>)
        ensures
            res@ == seq![
                LanguageOption(Language::German),
                LanguageOption(Language::English),
                LanguageOption(Language::Spanish),
                LanguageOption(Language::French),
                LanguageOption(Language::Italian),
                LanguageOption(Language::PortugueseBR),
                LanguageOption(Language::PortuguesePT),
                LanguageOption(Language::ChineseSimplified),
            ],
    {
        let mut v: Vec<LanguageOption> = Vec::new();
        v.push(LanguageOption(Language::German));
        v.push(LanguageOption(Language::English));
        v.push(LanguageOption(Language::Spanish));
        v.push(LanguageOption(Language::French));
        v.push(LanguageOption(Language::Italian));
        v.push(LanguageOption(Language::PortugueseBR));
        v.push(LanguageOption(Language::PortuguesePT));
        v.push(LanguageOption(Language::ChineseSimplified));
        v
    }

    /// The option for `lang`.
    pub fn from_language(lang: Language) -> (res: LanguageOption)
        ensures
            res.0 == lang,
    {
        LanguageOption(lang)
    }

    /// The language itself.
    pub fn inner(&self) -> (res: Language)
        ensures
            res == self.0,
    {
        self.0
    }

    /// The name the language is listed under.
    pub fn to_string(&self) -> (res: String)
        ensures
            res@ == language_label(self.0),
    {
        let s: &str = match self.0 {
            Language::English => "English",
            Language::French => "Français",
            Language::Spanish => "Español",
            Language::German => "Deutsch",
            Language::Italian => "Italiano",
            Language::PortugueseBR => "Português (BR)",
            Language::PortuguesePT => "Português (PT)",
            Language::ChineseSimplified => "简体中文",
        };
        s.to_owned()
    }
}

/// Code templates available in the dropdown.
#[derive(Clone, Copy, PartialEq, Eq, Debug)]
pub enum Template {
    Empty,
    HelloWorld,
    Fibonacci,
    Factorial,
}

/// The name of a template.
pub open spec fn template_name(t: Template) -> Seq<char> {
    match t {
        Template::Empty => "Empty"@,
        Template::HelloWorld => "Hello World"@,
        Template::Fibonacci => "Fibonacci"@,
        Template::Factorial => "Factorial"@,
    }
}

/// The source text of a template.
pub open spec fn template_content(t: Template) -> Seq<char> {
    match t {
        Template::Empty => ""@,
        Template::HelloWorld => HELLO_WORLD@,
        Template::Fibonacci => FIBONACCI@,
        Template::Factorial => FACTORIAL@,
    }
}

/// The Hello World template.
pub const HELLO_WORLD: &'static str = "-- Hello World in Lua\nprint(\"Hello, World!\")\n";

/// The Fibonacci template.
pub const FIBONACCI: &'static str = "-- Fibonacci sequence in Lua\nfunction fibonacci(n)\n    if n <= 1 then\n        return n\n    end\n    return fibonacci(n - 1) + fibonacci(n - 2)\nend\n\n-- Print first 10 Fibonacci numbers\nfor i = 0, 10 do\n    print(\"fib(\" .. i .. \") = \" .. fibonacci(i))\nend\n";

/// The Factorial template.
pub const FACTORIAL: &'static str = "-- Factorial function in Lua\nfunction factorial(n)\n    if n <= 1 then\n        return 1\n    end\n    return n * factorial(n - 1)\nend\n\n-- Calculate factorials\nfor i = 1, 10 do\n    print(i .. \"! = \" .. factorial(i))\nend\n";

impl Template {
    /// The templates in the order they are listed.
    pub fn all() -> (res: Vec<Template>)
        ensures
            res@ == seq![Template::Empty, Template::HelloWorld, Template::Fibonacci, Template::Factorial],
    {
        let mut v: Vec<Template> = Vec::new();
        v.push(Template::Empty);
        v.push(Template::HelloWorld);
        v.push(Template::Fibonacci);
        v.push(Template::Factorial);
        v
    }

    /// The name shown for the template.
    pub fn name(&self) -> (res: &'static str)
        ensures
            res@ == template_name(*self),
    {
        match self {
            Template::Empty => "Empty",
            Template::HelloWorld => "Hello World",
            Template::Fibonacci => "Fibonacci",
            Template::Factorial => "Factorial",
        }
    }

    /// The source text the template fills the editor with.
    pub fn content(&self) -> (res: &'static str)
        ensures
            res@ == template_content(*self),
    {
        match self {
            Template::Empty => "",
            Template::HelloWorld => HELLO_WORLD,
            Template::Fibonacci => FIBONACCI,
            Template::Factorial => FACTORIAL,
        }
    }

    /// The name shown for the template, as an owned string.
    pub fn to_string(&self) -> (res: String)
        ensures
            res@ == template_name(*self),
    {
        self.name().to_owned()
    }
}

/// Progress reported by a language server for one task.
#[derive(Clone, Debug)]
pub struct LspProgress {
    pub title: String,
    pub message: Option<String>,
    pub percentage: Option<u32>,
}

/// The fonts the application registers at start-up: the bundled
/// JetBrains Mono Regular, whose bytes are handed in.
pub fn load_all<'a>(jetbrains_mono_regular: &'a [u8]) -> (res: Vec<&'a [u8]>)
    ensures
        res@.len() == 1,
        res@[0]@ == jetbrains_mono_regular@,
{
    let mut v: Vec<&'a [u8]> = Vec::new();
    v.push(jetbrains_mono_regular);
    v
}

} // verus!
