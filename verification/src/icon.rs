//! File-type icons: exact file name first, then extension, then a type fallback.

use vstd::prelude::*;
use crate::text::{chars_eq_str, last_index_of, owned, rfind_char, slice_chars, to_chars, to_lowercase, unicode_lowercase};

verus! {

/// The glyph of an icon pair in the requested style.
pub open spec fn pick_icon(pair: (Seq<char>, Seq<char>), use_nerd: bool) -> Seq<char> {
    if use_nerd { pair.0 } else { pair.1 }
}

fn nerd_or_emoji(nerd: &str, emoji: &str, use_nerd: bool) -> (r: String)
    ensures
        r@ == pick_icon((nerd@, emoji@), use_nerd),
{
    if use_nerd {
        owned(nerd)
    } else {
        owned(emoji)
    }
}

/// Icon for an exact (lower-cased) file name.
/// Each entry is the (Nerd Font glyph, emoji) pair.
pub open spec fn exact_name_icon_spec(name: Seq<char>) -> Option<(Seq<char>, Seq<char>)> {
    if name == "cargo.toml"@ {
        Some(("\u{f43b}"@, "🦀"@))
    } else if name == "cargo.lock"@ || name == "package-lock.json"@ || name == "bun.lock"@ || name == "yarn.lock"@ || name == "pnpm-lock.yaml"@ {
        Some(("\u{f023}"@, "🔒"@))
    } else if name == "package.json"@ {
        Some(("\u{f4e6}"@, "📦"@))
    } else if name == "go.mod"@ || name == "go.sum"@ {
        Some(("\u{e627}"@, "🐹"@))
    } else if name == "pyproject.toml"@ || name == "setup.py"@ || name == "requirements.txt"@ || name == "pipfile"@ || name == "pyrightconfig.json"@ {
        Some(("\u{e73c}"@, "🐍"@))
    } else if name == "gemfile"@ {
        Some(("\u{e219}"@, "💎"@))
    } else if name == "pom.xml"@ || name == "build.gradle"@ {
        Some(("\u{e268}"@, "☕"@))
    } else if name == "cmakelists.txt"@ || name == "meson.build"@ {
        Some(("\u{e995}"@, "⚙️"@))
    } else if name == "makefile"@ {
        Some(("\u{ea3a}"@, "🔨"@))
    } else if name == "dockerfile"@ {
        Some(("\u{f308}"@, "🐳"@))
    } else if name == ".dockerignore"@ {
        Some(("\u{f308}"@, "🐳"@))
    } else if name == ".gitignore"@ || name == ".gitattributes"@ || name == ".gitmodules"@ {
        Some(("\u{f72b}"@, "📋"@))
    } else if name == ".env"@ || name == ".env.local"@ || name == ".env.production"@ {
        Some(("\u{f023}"@, "🔐"@))
    } else if name == ".editorconfig"@ || name == ".prettierrc"@ || name == ".eslintrc"@ || name == ".eslintrc.json"@ || name == ".eslintrc.js"@ {
        Some(("\u{f4a3}"@, "📝"@))
    } else if name == "tsconfig.json"@ || name == "webpack.config.js"@ || name == "vite.config.js"@ || name == "vite.config.ts"@ {
        Some(("\u{f4a3}"@, "📝"@))
    } else if name == "tailwind.config.js"@ || name == "tailwind.config.ts"@ || name == "next.config.js"@ || name == "next.config.mjs"@ {
        Some(("\u{f4a3}"@, "📝"@))
    } else if name == "nuxt.config.ts"@ || name == "svelte.config.js"@ || name == "astro.config.mjs"@ {
        Some(("\u{f4a3}"@, "📝"@))
    } else if name == "readme.md"@ || name == "readme.rst"@ || name == "readme.txt"@ {
        Some(("\u{f72b}"@, "📖"@))
    } else if name == "changelog.md"@ || name == "changelog"@ {
        Some(("\u{f72b}"@, "📋"@))
    } else if name == "license"@ || name == "license.md"@ || name == "license.txt"@ {
        Some(("\u{f719}"@, "📜"@))
    } else if name == "todo.md"@ {
        Some(("\u{f4a3}"@, "📝"@))
    } else if name == "flake.nix"@ || name == "flake.lock"@ || name == "shell.nix"@ || name == "default.nix"@ {
        Some(("\u{e2a1}"@, "❄️"@))
    } else {
        None
    }
}

fn exact_name_icon(name: &[char], use_nerd: bool) -> (r: Option<String>)
    ensures
        r is Some == exact_name_icon_spec(name@) is Some,
        r matches Some(s) ==> s@ == pick_icon(exact_name_icon_spec(name@)->0, use_nerd),
{
    if chars_eq_str(name, "cargo.toml") {
        Some(nerd_or_emoji("\u{f43b}", "🦀", use_nerd))
    } else if chars_eq_str(name, "cargo.lock") || chars_eq_str(name, "package-lock.json") || chars_eq_str(name, "bun.lock") || chars_eq_str(name, "yarn.lock") || chars_eq_str(name, "pnpm-lock.yaml") {
        Some(nerd_or_emoji("\u{f023}", "🔒", use_nerd))
    } else if chars_eq_str(name, "package.json") {
        Some(nerd_or_emoji("\u{f4e6}", "📦", use_nerd))
    } else if chars_eq_str(name, "go.mod") || chars_eq_str(name, "go.sum") {
        Some(nerd_or_emoji("\u{e627}", "🐹", use_nerd))
    } else if chars_eq_str(name, "pyproject.toml") || chars_eq_str(name, "setup.py") || chars_eq_str(name, "requirements.txt") || chars_eq_str(name, "pipfile") || chars_eq_str(name, "pyrightconfig.json") {
        Some(nerd_or_emoji("\u{e73c}", "🐍", use_nerd))
    } else if chars_eq_str(name, "gemfile") {
        Some(nerd_or_emoji("\u{e219}", "💎", use_nerd))
    } else if chars_eq_str(name, "pom.xml") || chars_eq_str(name, "build.gradle") {
        Some(nerd_or_emoji("\u{e268}", "☕", use_nerd))
    } else if chars_eq_str(name, "cmakelists.txt") || chars_eq_str(name, "meson.build") {
        Some(nerd_or_emoji("\u{e995}", "⚙️", use_nerd))
    } else if chars_eq_str(name, "makefile") {
        Some(nerd_or_emoji("\u{ea3a}", "🔨", use_nerd))
    } else if chars_eq_str(name, "dockerfile") {
        Some(nerd_or_emoji("\u{f308}", "🐳", use_nerd))
    } else if chars_eq_str(name, ".dockerignore") {
        Some(nerd_or_emoji("\u{f308}", "🐳", use_nerd))
    } else if chars_eq_str(name, ".gitignore") || chars_eq_str(name, ".gitattributes") || chars_eq_str(name, ".gitmodules") {
        Some(nerd_or_emoji("\u{f72b}", "📋", use_nerd))
    } else if chars_eq_str(name, ".env") || chars_eq_str(name, ".env.local") || chars_eq_str(name, ".env.production") {
        Some(nerd_or_emoji("\u{f023}", "🔐", use_nerd))
    } else if chars_eq_str(name, ".editorconfig") || chars_eq_str(name, ".prettierrc") || chars_eq_str(name, ".eslintrc") || chars_eq_str(name, ".eslintrc.json") || chars_eq_str(name, ".eslintrc.js") {
        Some(nerd_or_emoji("\u{f4a3}", "📝", use_nerd))
    } else if chars_eq_str(name, "tsconfig.json") || chars_eq_str(name, "webpack.config.js") || chars_eq_str(name, "vite.config.js") || chars_eq_str(name, "vite.config.ts") {
        Some(nerd_or_emoji("\u{f4a3}", "📝", use_nerd))
    } else if chars_eq_str(name, "tailwind.config.js") || chars_eq_str(name, "tailwind.config.ts") || chars_eq_str(name, "next.config.js") || chars_eq_str(name, "next.config.mjs") {
        Some(nerd_or_emoji("\u{f4a3}", "📝", use_nerd))
    } else if chars_eq_str(name, "nuxt.config.ts") || chars_eq_str(name, "svelte.config.js") || chars_eq_str(name, "astro.config.mjs") {
        Some(nerd_or_emoji("\u{f4a3}", "📝", use_nerd))
    } else if chars_eq_str(name, "readme.md") || chars_eq_str(name, "readme.rst") || chars_eq_str(name, "readme.txt") {
        Some(nerd_or_emoji("\u{f72b}", "📖", use_nerd))
    } else if chars_eq_str(name, "changelog.md") || chars_eq_str(name, "changelog") {
        Some(nerd_or_emoji("\u{f72b}", "📋", use_nerd))
    } else if chars_eq_str(name, "license") || chars_eq_str(name, "license.md") || chars_eq_str(name, "license.txt") {
        Some(nerd_or_emoji("\u{f719}", "📜", use_nerd))
    } else if chars_eq_str(name, "todo.md") {
        Some(nerd_or_emoji("\u{f4a3}", "📝", use_nerd))
    } else if chars_eq_str(name, "flake.nix") || chars_eq_str(name, "flake.lock") || chars_eq_str(name, "shell.nix") || chars_eq_str(name, "default.nix") {
        Some(nerd_or_emoji("\u{e2a1}", "❄️", use_nerd))
    } else {
        None
    }
}

/// Icon for a (lower-cased) extension, dot included.
/// Each entry is the (Nerd Font glyph, emoji) pair.
pub open spec fn extension_icon_spec(ext: Seq<char>) -> Option<(Seq<char>, Seq<char>)> {
    if ext == ".rs"@ {
        Some(("\u{f43b}"@, "🦀"@))
    } else if ext == ".py"@ {
        Some(("\u{e73c}"@, "🐍"@))
    } else if ext == ".js"@ || ext == ".mjs"@ || ext == ".cjs"@ {
        Some(("\u{f723}"@, "📜"@))
    } else if ext == ".ts"@ {
        Some(("\u{e628}"@, "📘"@))
    } else if ext == ".jsx"@ || ext == ".tsx"@ {
        Some(("\u{e625}"@, "⚛️"@))
    } else if ext == ".go"@ {
        Some(("\u{e627}"@, "🐹"@))
    } else if ext == ".rb"@ {
        Some(("\u{e219}"@, "💎"@))
    } else if ext == ".java"@ {
        Some(("\u{e268}"@, "☕"@))
    } else if ext == ".kt"@ {
        Some(("\u{e628}"@, "🟣"@))
    } else if ext == ".c"@ || ext == ".h"@ {
        Some(("\u{f12f}"@, "🔧"@))
    } else if ext == ".cpp"@ || ext == ".hpp"@ {
        Some(("\u{e995}"@, "⚙️"@))
    } else if ext == ".cs"@ {
        Some(("\u{e68f}"@, "🎮"@))
    } else if ext == ".swift"@ {
        Some(("\u{e755}"@, "🐦"@))
    } else if ext == ".zig"@ {
        Some(("\u{e0e9}"@, "⚡"@))
    } else if ext == ".nim"@ || ext == ".nims"@ {
        Some(("\u{e73c}"@, "🌙"@))
    } else if ext == ".lua"@ {
        Some(("\u{e73c}"@, "🌙"@))
    } else if ext == ".vim"@ || ext == ".el"@ {
        Some(("\u{f4a3}"@, "📝"@))
    } else if ext == ".r"@ || ext == ".R"@ {
        Some(("\u{f200}"@, "📊"@))
    } else if ext == ".scala"@ {
        Some(("\u{e68f}"@, "🔴"@))
    } else if ext == ".ex"@ || ext == ".exs"@ {
        Some(("\u{e7a1}"@, "🟣"@))
    } else if ext == ".erl"@ {
        Some(("\u{e7a1}"@, "🟣"@))
    } else if ext == ".hs"@ || ext == ".ml"@ || ext == ".fs"@ {
        Some(("\u{e61f}"@, "🟣"@))
    } else if ext == ".html"@ || ext == ".htm"@ {
        Some(("\u{f6a8}"@, "🌐"@))
    } else if ext == ".css"@ || ext == ".scss"@ || ext == ".sass"@ || ext == ".less"@ {
        Some(("\u{f368}"@, "🎨"@))
    } else if ext == ".vue"@ {
        Some(("\u{f584}"@, "💚"@))
    } else if ext == ".svelte"@ {
        Some(("\u{e73c}"@, "🧡"@))
    } else if ext == ".json"@ {
        Some(("\u{f724}"@, "📋"@))
    } else if ext == ".yaml"@ || ext == ".yml"@ {
        Some(("\u{f724}"@, "📋"@))
    } else if ext == ".toml"@ {
        Some(("\u{f724}"@, "📋"@))
    } else if ext == ".xml"@ {
        Some(("\u{f724}"@, "📋"@))
    } else if ext == ".ini"@ || ext == ".conf"@ || ext == ".cfg"@ {
        Some(("\u{f724}"@, "📋"@))
    } else if ext == ".sh"@ || ext == ".bash"@ || ext == ".zsh"@ || ext == ".fish"@ {
        Some(("\u{e795}"@, "🐚"@))
    } else if ext == ".ps1"@ || ext == ".bat"@ || ext == ".cmd"@ {
        Some(("\u{e795}"@, "🐚"@))
    } else if ext == ".md"@ || ext == ".rst"@ {
        Some(("\u{f72b}"@, "📖"@))
    } else if ext == ".txt"@ {
        Some(("\u{f15c}"@, "📄"@))
    } else if ext == ".pdf"@ {
        Some(("\u{f724}"@, "📕"@))
    } else if ext == ".doc"@ || ext == ".docx"@ || ext == ".odt"@ {
        Some(("\u{f724}"@, "📘"@))
    } else if ext == ".png"@ || ext == ".jpg"@ || ext == ".jpeg"@ || ext == ".gif"@ || ext == ".svg"@ || ext == ".webp"@ || ext == ".ico"@ || ext == ".bmp"@ || ext == ".tiff"@ || ext == ".avif"@ {
        Some(("\u{f1c5}"@, "🖼️"@))
    } else if ext == ".mp3"@ || ext == ".wav"@ || ext == ".flac"@ || ext == ".ogg"@ || ext == ".aac"@ || ext == ".m4a"@ {
        Some(("\u{f1c7}"@, "🎵"@))
    } else if ext == ".mp4"@ || ext == ".mkv"@ || ext == ".avi"@ || ext == ".mov"@ || ext == ".webm"@ {
        Some(("\u{f1c8}"@, "🎬"@))
    } else if ext == ".zip"@ || ext == ".tar"@ || ext == ".gz"@ || ext == ".bz2"@ || ext == ".xz"@ || ext == ".7z"@ || ext == ".rar"@ || ext == ".tgz"@ {
        Some(("\u{f187}"@, "📦"@))
    } else if ext == ".o"@ || ext == ".so"@ || ext == ".dll"@ || ext == ".dylib"@ || ext == ".a"@ {
        Some(("\u{f12f}"@, "🔧"@))
    } else if ext == ".exe"@ || ext == ".bin"@ || ext == ".wasm"@ {
        Some(("\u{e0e9}"@, "⚡"@))
    } else if ext == ".db"@ || ext == ".sqlite"@ || ext == ".sqlite3"@ {
        Some(("\u{f1c0}"@, "🗃️"@))
    } else if ext == ".lock"@ {
        Some(("\u{f023}"@, "🔒"@))
    } else if ext == ".nix"@ {
        Some(("\u{e2a1}"@, "❄️"@))
    } else {
        None
    }
}

fn extension_icon(ext: &[char], use_nerd: bool) -> (r: Option<String>)
    ensures
        r is Some == extension_icon_spec(ext@) is Some,
        r matches Some(s) ==> s@ == pick_icon(extension_icon_spec(ext@)->0, use_nerd),
{
    if chars_eq_str(ext, ".rs") {
        Some(nerd_or_emoji("\u{f43b}", "🦀", use_nerd))
    } else if chars_eq_str(ext, ".py") {
        Some(nerd_or_emoji("\u{e73c}", "🐍", use_nerd))
    } else if chars_eq_str(ext, ".js") || chars_eq_str(ext, ".mjs") || chars_eq_str(ext, ".cjs") {
        Some(nerd_or_emoji("\u{f723}", "📜", use_nerd))
    } else if chars_eq_str(ext, ".ts") {
        Some(nerd_or_emoji("\u{e628}", "📘", use_nerd))
    } else if chars_eq_str(ext, ".jsx") || chars_eq_str(ext, ".tsx") {
        Some(nerd_or_emoji("\u{e625}", "⚛️", use_nerd))
    } else if chars_eq_str(ext, ".go") {
        Some(nerd_or_emoji("\u{e627}", "🐹", use_nerd))
    } else if chars_eq_str(ext, ".rb") {
        Some(nerd_or_emoji("\u{e219}", "💎", use_nerd))
    } else if chars_eq_str(ext, ".java") {
        Some(nerd_or_emoji("\u{e268}", "☕", use_nerd))
    } else if chars_eq_str(ext, ".kt") {
        Some(nerd_or_emoji("\u{e628}", "🟣", use_nerd))
    } else if chars_eq_str(ext, ".c") || chars_eq_str(ext, ".h") {
        Some(nerd_or_emoji("\u{f12f}", "🔧", use_nerd))
    } else if chars_eq_str(ext, ".cpp") || chars_eq_str(ext, ".hpp") {
        Some(nerd_or_emoji("\u{e995}", "⚙️", use_nerd))
    } else if chars_eq_str(ext, ".cs") {
        Some(nerd_or_emoji("\u{e68f}", "🎮", use_nerd))
    } else if chars_eq_str(ext, ".swift") {
        Some(nerd_or_emoji("\u{e755}", "🐦", use_nerd))
    } else if chars_eq_str(ext, ".zig") {
        Some(nerd_or_emoji("\u{e0e9}", "⚡", use_nerd))
    } else if chars_eq_str(ext, ".nim") || chars_eq_str(ext, ".nims") {
        Some(nerd_or_emoji("\u{e73c}", "🌙", use_nerd))
    } else if chars_eq_str(ext, ".lua") {
        Some(nerd_or_emoji("\u{e73c}", "🌙", use_nerd))
    } else if chars_eq_str(ext, ".vim") || chars_eq_str(ext, ".el") {
        Some(nerd_or_emoji("\u{f4a3}", "📝", use_nerd))
    } else if chars_eq_str(ext, ".r") || chars_eq_str(ext, ".R") {
        Some(nerd_or_emoji("\u{f200}", "📊", use_nerd))
    } else if chars_eq_str(ext, ".scala") {
        Some(nerd_or_emoji("\u{e68f}", "🔴", use_nerd))
    } else if chars_eq_str(ext, ".ex") || chars_eq_str(ext, ".exs") {
        Some(nerd_or_emoji("\u{e7a1}", "🟣", use_nerd))
    } else if chars_eq_str(ext, ".erl") {
        Some(nerd_or_emoji("\u{e7a1}", "🟣", use_nerd))
    } else if chars_eq_str(ext, ".hs") || chars_eq_str(ext, ".ml") || chars_eq_str(ext, ".fs") {
        Some(nerd_or_emoji("\u{e61f}", "🟣", use_nerd))
    } else if chars_eq_str(ext, ".html") || chars_eq_str(ext, ".htm") {
        Some(nerd_or_emoji("\u{f6a8}", "🌐", use_nerd))
    } else if chars_eq_str(ext, ".css") || chars_eq_str(ext, ".scss") || chars_eq_str(ext, ".sass") || chars_eq_str(ext, ".less") {
        Some(nerd_or_emoji("\u{f368}", "🎨", use_nerd))
    } else if chars_eq_str(ext, ".vue") {
        Some(nerd_or_emoji("\u{f584}", "💚", use_nerd))
    } else if chars_eq_str(ext, ".svelte") {
        Some(nerd_or_emoji("\u{e73c}", "🧡", use_nerd))
    } else if chars_eq_str(ext, ".json") {
        Some(nerd_or_emoji("\u{f724}", "📋", use_nerd))
    } else if chars_eq_str(ext, ".yaml") || chars_eq_str(ext, ".yml") {
        Some(nerd_or_emoji("\u{f724}", "📋", use_nerd))
    } else if chars_eq_str(ext, ".toml") {
        Some(nerd_or_emoji("\u{f724}", "📋", use_nerd))
    } else if chars_eq_str(ext, ".xml") {
        Some(nerd_or_emoji("\u{f724}", "📋", use_nerd))
    } else if chars_eq_str(ext, ".ini") || chars_eq_str(ext, ".conf") || chars_eq_str(ext, ".cfg") {
        Some(nerd_or_emoji("\u{f724}", "📋", use_nerd))
    } else if chars_eq_str(ext, ".sh") || chars_eq_str(ext, ".bash") || chars_eq_str(ext, ".zsh") || chars_eq_str(ext, ".fish") {
        Some(nerd_or_emoji("\u{e795}", "🐚", use_nerd))
    } else if chars_eq_str(ext, ".ps1") || chars_eq_str(ext, ".bat") || chars_eq_str(ext, ".cmd") {
        Some(nerd_or_emoji("\u{e795}", "🐚", use_nerd))
    } else if chars_eq_str(ext, ".md") || chars_eq_str(ext, ".rst") {
        Some(nerd_or_emoji("\u{f72b}", "📖", use_nerd))
    } else if chars_eq_str(ext, ".txt") {
        Some(nerd_or_emoji("\u{f15c}", "📄", use_nerd))
    } else if chars_eq_str(ext, ".pdf") {
        Some(nerd_or_emoji("\u{f724}", "📕", use_nerd))
    } else if chars_eq_str(ext, ".doc") || chars_eq_str(ext, ".docx") || chars_eq_str(ext, ".odt") {
        Some(nerd_or_emoji("\u{f724}", "📘", use_nerd))
    } else if chars_eq_str(ext, ".png") || chars_eq_str(ext, ".jpg") || chars_eq_str(ext, ".jpeg") || chars_eq_str(ext, ".gif") || chars_eq_str(ext, ".svg") || chars_eq_str(ext, ".webp") || chars_eq_str(ext, ".ico") || chars_eq_str(ext, ".bmp") || chars_eq_str(ext, ".tiff") || chars_eq_str(ext, ".avif") {
        Some(nerd_or_emoji("\u{f1c5}", "🖼️", use_nerd))
    } else if chars_eq_str(ext, ".mp3") || chars_eq_str(ext, ".wav") || chars_eq_str(ext, ".flac") || chars_eq_str(ext, ".ogg") || chars_eq_str(ext, ".aac") || chars_eq_str(ext, ".m4a") {
        Some(nerd_or_emoji("\u{f1c7}", "🎵", use_nerd))
    } else if chars_eq_str(ext, ".mp4") || chars_eq_str(ext, ".mkv") || chars_eq_str(ext, ".avi") || chars_eq_str(ext, ".mov") || chars_eq_str(ext, ".webm") {
        Some(nerd_or_emoji("\u{f1c8}", "🎬", use_nerd))
    } else if chars_eq_str(ext, ".zip") || chars_eq_str(ext, ".tar") || chars_eq_str(ext, ".gz") || chars_eq_str(ext, ".bz2") || chars_eq_str(ext, ".xz") || chars_eq_str(ext, ".7z") || chars_eq_str(ext, ".rar") || chars_eq_str(ext, ".tgz") {
        Some(nerd_or_emoji("\u{f187}", "📦", use_nerd))
    } else if chars_eq_str(ext, ".o") || chars_eq_str(ext, ".so") || chars_eq_str(ext, ".dll") || chars_eq_str(ext, ".dylib") || chars_eq_str(ext, ".a") {
        Some(nerd_or_emoji("\u{f12f}", "🔧", use_nerd))
    } else if chars_eq_str(ext, ".exe") || chars_eq_str(ext, ".bin") || chars_eq_str(ext, ".wasm") {
        Some(nerd_or_emoji("\u{e0e9}", "⚡", use_nerd))
    } else if chars_eq_str(ext, ".db") || chars_eq_str(ext, ".sqlite") || chars_eq_str(ext, ".sqlite3") {
        Some(nerd_or_emoji("\u{f1c0}", "🗃️", use_nerd))
    } else if chars_eq_str(ext, ".lock") {
        Some(nerd_or_emoji("\u{f023}", "🔒", use_nerd))
    } else if chars_eq_str(ext, ".nix") {
        Some(nerd_or_emoji("\u{e2a1}", "❄️", use_nerd))
    } else {
        None
    }
}

/// The extension of `name` (from its last dot, dot included), if it has a dot.
pub open spec fn extension_of(name: Seq<char>) -> Option<Seq<char>> {
    match last_index_of(name, '.') {
        Some(i) => Some(name.subrange(i, name.len() as int)),
        None => None,
    }
}

/// The icon shown for an entry, from its lower-cased name and its kind.
pub open spec fn icon_spec(lower: Seq<char>, is_dir: bool, is_exec: bool, is_symlink: bool, use_nerd: bool) -> Seq<char> {
    if is_symlink {
        "\u{1f517}"@
    } else if is_dir {
        "\u{1f4c1}"@
    } else if exact_name_icon_spec(lower) is Some {
        pick_icon(exact_name_icon_spec(lower)->0, use_nerd)
    } else if extension_of(lower) is Some && extension_icon_spec(extension_of(lower)->0) is Some {
        pick_icon(extension_icon_spec(extension_of(lower)->0)->0, use_nerd)
    } else if is_exec {
        "\u{26a1}"@
    } else {
        "\u{1f4c4}"@
    }
}

/// Icon for a file or directory entry with an explicit glyph style
/// (`use_nerd` selects Nerd Font glyphs over emoji).
pub fn icon_for_mode(name: &str, is_dir: bool, is_exec: bool, is_symlink: bool, use_nerd: bool) -> (r: String)
    ensures
        r@ == icon_spec(unicode_lowercase(name@), is_dir, is_exec, is_symlink, use_nerd),
{
    if is_symlink {
        return owned("\u{1f517}");
    }
    if is_dir {
        return owned("\u{1f4c1}");
    }
    let lower_s = to_lowercase(name);
    let lower = to_chars(lower_s.as_str());
    if let Some(icon) = exact_name_icon(lower.as_slice(), use_nerd) {
        return icon;
    }
    if let Some(dot) = rfind_char(lower.as_slice(), '.') {
        let ext = slice_chars(lower.as_slice(), dot, lower.len());
        if let Some(icon) = extension_icon(ext.as_slice(), use_nerd) {
            return icon;
        }
    }
    if is_exec {
        return owned("\u{26a1}");
    }
    owned("\u{1f4c4}")
}

/// An entry's icon does not depend on the case of its name: the icon of a
/// name is the icon of its lower-cased form (for names whose lower-cased form
/// lower-cases to itself).
pub proof fn icon_ignores_case(name: Seq<char>, is_dir: bool, is_exec: bool, is_symlink: bool, use_nerd: bool)
    requires
        unicode_lowercase(unicode_lowercase(name)) == unicode_lowercase(name),
    ensures
        icon_spec(unicode_lowercase(name), is_dir, is_exec, is_symlink, use_nerd)
            == icon_spec(unicode_lowercase(unicode_lowercase(name)), is_dir, is_exec, is_symlink, use_nerd),
{
}

} // verus!
