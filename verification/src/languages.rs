//! The languages that are counted, by file extension.

use vstd::prelude::*;

verus! {

/// The language that an extension stands for, if it is one of those counted.
/// The extension is written without its dot and compared as it stands.
pub open spec fn language_of(extension: Seq<char>) -> Option<Seq<char>> {
    if extension == "rs"@ {
        Some("Rust"@)
    } else if extension == "go"@ {
        Some("Go"@)
    } else if extension == "js"@ {
        Some("JavaScript"@)
    } else if extension == "py"@ {
        Some("Python"@)
    } else if extension == "java"@ {
        Some("Java"@)
    } else if extension == "c"@ {
        Some("C"@)
    } else if extension == "cpp"@ {
        Some("C++"@)
    } else if extension == "h"@ {
        Some("C/C++ Header"@)
    } else if extension == "hpp"@ {
        Some("C++ Header"@)
    } else if extension == "cs"@ {
        Some("C#"@)
    } else if extension == "html"@ {
        Some("HTML"@)
    } else if extension == "css"@ {
        Some("CSS"@)
    } else if extension == "md"@ {
        Some("Markdown"@)
    } else if extension == "json"@ {
        Some("JSON"@)
    } else if extension == "yml"@ {
        Some("YAML"@)
    } else if extension == "yaml"@ {
        Some("YAML"@)
    } else if extension == "xml"@ {
        Some("XML"@)
    } else if extension == "sh"@ {
        Some("Shell Script"@)
    } else if extension == "bat"@ {
        Some("Batch Script"@)
    } else if extension == "ps1"@ {
        Some("PowerShell Script"@)
    } else if extension == "sql"@ {
        Some("SQL"@)
    } else if extension == "rb"@ {
        Some("Ruby"@)
    } else if extension == "php"@ {
        Some("PHP"@)
    } else if extension == "swift"@ {
        Some("Swift"@)
    } else if extension == "kt"@ {
        Some("Kotlin"@)
    } else if extension == "ts"@ {
        Some("TypeScript"@)
    } else if extension == "scala"@ {
        Some("Scala"@)
    } else if extension == "lua"@ {
        Some("Lua"@)
    } else if extension == "pl"@ {
        Some("Perl"@)
    } else if extension == "r"@ {
        Some("R"@)
    } else if extension == "dart"@ {
        Some("Dart"@)
    } else if extension == "erl"@ {
        Some("Erlang"@)
    } else if extension == "ex"@ {
        Some("Elixir"@)
    } else if extension == "hs"@ {
        Some("Haskell"@)
    } else {
        None
    }
}

/// The name of a language, or that there is none.
pub open spec fn names_language(name: Option<String>, language: Option<Seq<char>>) -> bool {
    match name {
        Some(name) => language == Some(name@),
        None => language is None,
    }
}

/// The name of the language that `extension` stands for.
pub fn get_language_name(extension: &str) -> (name: Option<String>)
    ensures
        names_language(name, language_of(extension@)),
{
    if extension.eq("rs") {
        Some("Rust".to_owned())
    } else if extension.eq("go") {
        Some("Go".to_owned())
    } else if extension.eq("js") {
        Some("JavaScript".to_owned())
    } else if extension.eq("py") {
        Some("Python".to_owned())
    } else if extension.eq("java") {
        Some("Java".to_owned())
    } else if extension.eq("c") {
        Some("C".to_owned())
    } else if extension.eq("cpp") {
        Some("C++".to_owned())
    } else if extension.eq("h") {
        Some("C/C++ Header".to_owned())
    } else if extension.eq("hpp") {
        Some("C++ Header".to_owned())
    } else if extension.eq("cs") {
        Some("C#".to_owned())
    } else if extension.eq("html") {
        Some("HTML".to_owned())
    } else if extension.eq("css") {
        Some("CSS".to_owned())
    } else if extension.eq("md") {
        Some("Markdown".to_owned())
    } else if extension.eq("json") {
        Some("JSON".to_owned())
    } else if extension.eq("yml") {
        Some("YAML".to_owned())
    } else if extension.eq("yaml") {
        Some("YAML".to_owned())
    } else if extension.eq("xml") {
        Some("XML".to_owned())
    } else if extension.eq("sh") {
        Some("Shell Script".to_owned())
    } else if extension.eq("bat") {
        Some("Batch Script".to_owned())
    } else if extension.eq("ps1") {
        Some("PowerShell Script".to_owned())
    } else if extension.eq("sql") {
        Some("SQL".to_owned())
    } else if extension.eq("rb") {
        Some("Ruby".to_owned())
    } else if extension.eq("php") {
        Some("PHP".to_owned())
    } else if extension.eq("swift") {
        Some("Swift".to_owned())
    } else if extension.eq("kt") {
        Some("Kotlin".to_owned())
    } else if extension.eq("ts") {
        Some("TypeScript".to_owned())
    } else if extension.eq("scala") {
        Some("Scala".to_owned())
    } else if extension.eq("lua") {
        Some("Lua".to_owned())
    } else if extension.eq("pl") {
        Some("Perl".to_owned())
    } else if extension.eq("r") {
        Some("R".to_owned())
    } else if extension.eq("dart") {
        Some("Dart".to_owned())
    } else if extension.eq("erl") {
        Some("Erlang".to_owned())
    } else if extension.eq("ex") {
        Some("Elixir".to_owned())
    } else if extension.eq("hs") {
        Some("Haskell".to_owned())
    } else {
        None
    }
}

} // verus!
