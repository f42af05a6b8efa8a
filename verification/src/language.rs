//! From a file's name to the language it is written in, and from a language's
//! identifier to the label shown for it.

use crate::text::{
    chars_of, first_occurrence, last_piece, lemma_first_occurrence_occurs, occurs_at, spells,
    take_last_piece,
};
use vstd::prelude::*;

verus! {

/// The extension of a file name: what follows its last `.`, or the whole name
/// where it holds none.
pub open spec fn extension(file_name: Seq<char>) -> Seq<char> {
    last_piece(file_name, "."@)
}

/// The identifier of the language that files with `extension` are written in.
/// An extension without an entry, the empty one among them, is plain text.
pub open spec fn language_of_extension(extension: Seq<char>) -> Seq<char> {
    if extension == "rs"@ {
        "rust"@
    } else if extension == "js"@ {
        "javascript"@
    } else if extension == "ts"@ {
        "typescript"@
    } else if extension == "tsx"@ {
        "typescriptreact"@
    } else if extension == "jsx"@ {
        "javascriptreact"@
    } else if extension == "py"@ {
        "python"@
    } else if extension == "go"@ {
        "go"@
    } else if extension == "java"@ {
        "java"@
    } else if extension == "cpp"@ || extension == "cc"@ || extension == "cxx"@ {
        "cpp"@
    } else if extension == "c"@ {
        "c"@
    } else if extension == "h"@ || extension == "hpp"@ {
        "cpp"@
    } else if extension == "cs"@ {
        "csharp"@
    } else if extension == "rb"@ {
        "ruby"@
    } else if extension == "php"@ {
        "php"@
    } else if extension == "swift"@ {
        "swift"@
    } else if extension == "kt"@ || extension == "kts"@ {
        "kotlin"@
    } else if extension == "scala"@ {
        "scala"@
    } else if extension == "sh"@ || extension == "bash"@ {
        "bash"@
    } else if extension == "html"@ {
        "html"@
    } else if extension == "css"@ {
        "css"@
    } else if extension == "scss"@ || extension == "sass"@ {
        "scss"@
    } else if extension == "json"@ {
        "json"@
    } else if extension == "yaml"@ || extension == "yml"@ {
        "yaml"@
    } else if extension == "md"@ {
        "markdown"@
    } else if extension == "sql"@ {
        "sql"@
    } else if extension == "lua"@ {
        "lua"@
    } else if extension == "r"@ {
        "r"@
    } else if extension == "dart"@ {
        "dart"@
    } else if extension == "hs"@ {
        "haskell"@
    } else {
        "plaintext"@
    }
}

/// The identifier of the language that the file named `file_name` is written in.
pub open spec fn language_of(file_name: Seq<char>) -> Seq<char> {
    language_of_extension(extension(file_name))
}

/// The label shown for the language with the identifier `language`.
pub open spec fn display_name(language: Seq<char>) -> Seq<char> {
    if language == "rust"@ {
        "Rust"@
    } else if language == "javascript"@ {
        "JS"@
    } else if language == "typescript"@ {
        "TS"@
    } else if language == "typescriptreact"@ {
        "TSX"@
    } else if language == "javascriptreact"@ {
        "JSX"@
    } else if language == "python"@ {
        "Python"@
    } else if language == "go"@ {
        "Go"@
    } else if language == "java"@ {
        "Java"@
    } else if language == "cpp"@ {
        "C++"@
    } else if language == "c"@ {
        "C"@
    } else if language == "csharp"@ {
        "C#"@
    } else if language == "ruby"@ {
        "Ruby"@
    } else if language == "php"@ {
        "PHP"@
    } else if language == "swift"@ {
        "Swift"@
    } else if language == "kotlin"@ {
        "Kotlin"@
    } else if language == "scala"@ {
        "Scala"@
    } else if language == "bash"@ {
        "Bash"@
    } else if language == "html"@ {
        "HTML"@
    } else if language == "css"@ {
        "CSS"@
    } else if language == "scss"@ {
        "SCSS"@
    } else if language == "json"@ {
        "JSON"@
    } else if language == "yaml"@ {
        "YAML"@
    } else if language == "markdown"@ {
        "MD"@
    } else if language == "sql"@ {
        "SQL"@
    } else if language == "lua"@ {
        "Lua"@
    } else if language == "r"@ {
        "R"@
    } else if language == "dart"@ {
        "Dart"@
    } else if language == "haskell"@ {
        "Haskell"@
    } else if language == "plaintext"@ {
        "Text"@
    } else {
        "Unknown"@
    }
}

/// A name that holds no `.` is its own extension.
pub proof fn lemma_extension_of_undotted_name(file_name: Seq<char>)
    requires
        forall|i: int| 0 <= i < file_name.len() ==> file_name[i] != '.',
    ensures
        extension(file_name) == file_name,
{
    reveal_strlit(".");
    assert forall|at: int| !occurs_at(file_name, "."@, at) by {
        if occurs_at(file_name, "."@, at) {
            assert(file_name.subrange(at, at + 1)[0] == '.');
        }
    }
}

/// The extension is what follows the last `.` of the name.
pub proof fn lemma_extension_follows_last_dot(file_name: Seq<char>, last_dot: int)
    requires
        0 <= last_dot < file_name.len(),
        file_name[last_dot] == '.',
        forall|i: int| last_dot < i < file_name.len() ==> file_name[i] != '.',
    ensures
        extension(file_name) == file_name.skip(last_dot + 1),
    decreases file_name.len(),
{
    reveal_strlit(".");
    assert(occurs_at(file_name, "."@, last_dot)) by {
        assert(file_name.subrange(last_dot, last_dot + 1) == "."@);
    }
    lemma_first_occurrence_occurs(file_name, "."@);
    let first = first_occurrence(file_name, "."@)->0;
    let rest = file_name.skip(first + 1);
    assert(extension(file_name) == extension(rest));
    if first == last_dot {
        lemma_extension_of_undotted_name(rest);
    } else {
        assert(first < last_dot);
        lemma_extension_follows_last_dot(rest, last_dot - first - 1);
        assert(rest.skip(last_dot - first) == file_name.skip(last_dot + 1));
    }
}

/// Names the language of a file by the extension of its name. Every name has
/// a language: one that the table does not know is plain text.
pub fn detect_language(filename: &str) -> (language: String)
    ensures
        language@ == language_of(filename@),
{
    let ext = chars_of(take_last_piece(filename, "."));
    let language: &str = if spells(&ext, "rs") {
        "rust"
    } else if spells(&ext, "js") {
        "javascript"
    } else if spells(&ext, "ts") {
        "typescript"
    } else if spells(&ext, "tsx") {
        "typescriptreact"
    } else if spells(&ext, "jsx") {
        "javascriptreact"
    } else if spells(&ext, "py") {
        "python"
    } else if spells(&ext, "go") {
        "go"
    } else if spells(&ext, "java") {
        "java"
    } else if spells(&ext, "cpp") || spells(&ext, "cc") || spells(&ext, "cxx") {
        "cpp"
    } else if spells(&ext, "c") {
        "c"
    } else if spells(&ext, "h") || spells(&ext, "hpp") {
        "cpp"
    } else if spells(&ext, "cs") {
        "csharp"
    } else if spells(&ext, "rb") {
        "ruby"
    } else if spells(&ext, "php") {
        "php"
    } else if spells(&ext, "swift") {
        "swift"
    } else if spells(&ext, "kt") || spells(&ext, "kts") {
        "kotlin"
    } else if spells(&ext, "scala") {
        "scala"
    } else if spells(&ext, "sh") || spells(&ext, "bash") {
        "bash"
    } else if spells(&ext, "html") {
        "html"
    } else if spells(&ext, "css") {
        "css"
    } else if spells(&ext, "scss") || spells(&ext, "sass") {
        "scss"
    } else if spells(&ext, "json") {
        "json"
    } else if spells(&ext, "yaml") || spells(&ext, "yml") {
        "yaml"
    } else if spells(&ext, "md") {
        "markdown"
    } else if spells(&ext, "sql") {
        "sql"
    } else if spells(&ext, "lua") {
        "lua"
    } else if spells(&ext, "r") {
        "r"
    } else if spells(&ext, "dart") {
        "dart"
    } else if spells(&ext, "hs") {
        "haskell"
    } else {
        "plaintext"
    };
    language.to_owned()
}

/// The label under which a language is shown. An identifier that the table
/// does not know is shown as unknown.
pub fn get_display_name(lang: &str) -> (name: &'static str)
    ensures
        name@ == display_name(lang@),
{
    let id = chars_of(lang);
    if spells(&id, "rust") {
        "Rust"
    } else if spells(&id, "javascript") {
        "JS"
    } else if spells(&id, "typescript") {
        "TS"
    } else if spells(&id, "typescriptreact") {
        "TSX"
    } else if spells(&id, "javascriptreact") {
        "JSX"
    } else if spells(&id, "python") {
        "Python"
    } else if spells(&id, "go") {
        "Go"
    } else if spells(&id, "java") {
        "Java"
    } else if spells(&id, "cpp") {
        "C++"
    } else if spells(&id, "c") {
        "C"
    } else if spells(&id, "csharp") {
        "C#"
    } else if spells(&id, "ruby") {
        "Ruby"
    } else if spells(&id, "php") {
        "PHP"
    } else if spells(&id, "swift") {
        "Swift"
    } else if spells(&id, "kotlin") {
        "Kotlin"
    } else if spells(&id, "scala") {
        "Scala"
    } else if spells(&id, "bash") {
        "Bash"
    } else if spells(&id, "html") {
        "HTML"
    } else if spells(&id, "css") {
        "CSS"
    } else if spells(&id, "scss") {
        "SCSS"
    } else if spells(&id, "json") {
        "JSON"
    } else if spells(&id, "yaml") {
        "YAML"
    } else if spells(&id, "markdown") {
        "MD"
    } else if spells(&id, "sql") {
        "SQL"
    } else if spells(&id, "lua") {
        "Lua"
    } else if spells(&id, "r") {
        "R"
    } else if spells(&id, "dart") {
        "Dart"
    } else if spells(&id, "haskell") {
        "Haskell"
    } else if spells(&id, "plaintext") {
        "Text"
    } else {
        "Unknown"
    }
}

} // verus!
