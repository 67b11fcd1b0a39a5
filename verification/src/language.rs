//! The files whose presence in a workspace tells its language.
use vstd::prelude::*;

verus! {

/// A file named `name` is among the files `present` lists.
pub open spec fn has_file(present: Seq<String>, name: Seq<char>) -> bool {
    exists|i: int| 0 <= i < present.len() && (#[trigger] present[i])@ == name
}

/// Whether a file named `name` is among the files `present` lists.
pub fn is_present(present: &Vec<String>, name: &str) -> (r: bool)
    ensures
        r == has_file(present@, name@),
{
    let target = String::from_str(name);
    let mut i: usize = 0;
    while i < present.len()
        invariant
            i <= present.len(),
            target@ == name@,
            forall|j: int| 0 <= j < i ==> (#[trigger] present@[j])@ != name@,
        decreases present.len() - i,
    {
        if present[i] == target {
            return true;
        }
        i += 1;
    }
    false
}

/// The names of the files the language detectors ask about.
pub open spec fn marker_names() -> Seq<Seq<char>> {
    seq![
        "Cargo.toml"@, "Cargo.lock"@, "package.json"@, "go.mod"@, "requirements.txt"@,
        "pyproject.toml"@, "setup.py"@, "pom.xml"@, "build.gradle"@, "build.gradle.kts"@,
        "CMakeLists.txt"@, "Makefile"@, "meson.build"@, "Gemfile"@, "composer.json"@,
        "Package.swift"@, "pubspec.yaml"@, "mix.exs"@,
    ]
}

/// The names of the files the language detectors ask about: a detector's
/// answer depends only on which of these a workspace holds.
pub fn marker_files() -> (r: Vec<String>)
    ensures
        r@.map_values(|s: String| s@) == marker_names(),
{
    let mut r: Vec<String> = Vec::new();
    r.push(String::from_str("Cargo.toml"));
    r.push(String::from_str("Cargo.lock"));
    r.push(String::from_str("package.json"));
    r.push(String::from_str("go.mod"));
    r.push(String::from_str("requirements.txt"));
    r.push(String::from_str("pyproject.toml"));
    r.push(String::from_str("setup.py"));
    r.push(String::from_str("pom.xml"));
    r.push(String::from_str("build.gradle"));
    r.push(String::from_str("build.gradle.kts"));
    r.push(String::from_str("CMakeLists.txt"));
    r.push(String::from_str("Makefile"));
    r.push(String::from_str("meson.build"));
    r.push(String::from_str("Gemfile"));
    r.push(String::from_str("composer.json"));
    r.push(String::from_str("Package.swift"));
    r.push(String::from_str("pubspec.yaml"));
    r.push(String::from_str("mix.exs"));
    assert(r@.map_values(|s: String| s@) =~= marker_names());
    r
}

} // verus!
