//! Shell aliases for the project kind of a directory.

use vstd::prelude::*;
use crate::fs::ProjectType;
use crate::text::{owned, views};

verus! {

/// The aliases offered for each project type; other types get make targets.
pub open spec fn aliases_for(pt: ProjectType) -> Seq<Seq<char>> {
    match pt {
        ProjectType::Rust => seq!["alias run='cargo run'"@, "alias test='cargo test'"@, "alias build='cargo build'"@, "alias check='cargo check'"@, "alias clippy='cargo clippy -- -W clippy::all'"@, "alias cfm_clean='cargo clean && fm banner'"@],
        ProjectType::Node => seq!["alias run='npm run dev'"@, "alias test='npm test'"@, "alias build='npm run build'"@, "alias lint='npm run lint'"@],
        ProjectType::Python => seq!["alias run='python -m .'"@, "alias test='pytest'"@, "alias venv='source .venv/bin/activate'"@],
        ProjectType::Go => seq!["alias run='go run .'"@, "alias test='go test ./...'"@, "alias build='go build'"@],
        _ => seq!["alias run='make run'"@, "alias build='make'"@, "alias test='make test'"@],
    }
}

fn strings_of(xs: &[&str]) -> (r: Vec<String>)
    ensures
        r@.len() == xs@.len(),
        forall|i: int| 0 <= i < xs@.len() ==> #[trigger] r@[i]@ == xs@[i]@,
{
    let mut r: Vec<String> = Vec::new();
    let mut i: usize = 0;
    while i < xs.len()
        invariant
            i <= xs@.len(),
            r@.len() == i,
            forall|k: int| 0 <= k < i ==> #[trigger] r@[k]@ == xs@[k]@,
        decreases xs@.len() - i,
    {
        r.push(owned(xs[i]));
        i = i + 1;
    }
    r
}

/// The shell aliases for a project type, in the order they are printed.
pub fn generate_aliases(project_type: &ProjectType) -> (r: Vec<String>)
    ensures
        views(r@) == aliases_for(*project_type),
{
    match project_type {
        ProjectType::Rust => {
            let xs = ["alias run='cargo run'", "alias test='cargo test'", "alias build='cargo build'", "alias check='cargo check'", "alias clippy='cargo clippy -- -W clippy::all'", "alias cfm_clean='cargo clean && fm banner'"];
            let r = strings_of(&xs);
            assert(views(r@) =~= seq!["alias run='cargo run'"@, "alias test='cargo test'"@, "alias build='cargo build'"@, "alias check='cargo check'"@, "alias clippy='cargo clippy -- -W clippy::all'"@, "alias cfm_clean='cargo clean && fm banner'"@]);
            r
        },
        ProjectType::Node => {
            let xs = ["alias run='npm run dev'", "alias test='npm test'", "alias build='npm run build'", "alias lint='npm run lint'"];
            let r = strings_of(&xs);
            assert(views(r@) =~= seq!["alias run='npm run dev'"@, "alias test='npm test'"@, "alias build='npm run build'"@, "alias lint='npm run lint'"@]);
            r
        },
        ProjectType::Python => {
            let xs = ["alias run='python -m .'", "alias test='pytest'", "alias venv='source .venv/bin/activate'"];
            let r = strings_of(&xs);
            assert(views(r@) =~= seq!["alias run='python -m .'"@, "alias test='pytest'"@, "alias venv='source .venv/bin/activate'"@]);
            r
        },
        ProjectType::Go => {
            let xs = ["alias run='go run .'", "alias test='go test ./...'", "alias build='go build'"];
            let r = strings_of(&xs);
            assert(views(r@) =~= seq!["alias run='go run .'"@, "alias test='go test ./...'"@, "alias build='go build'"@]);
            r
        },
        _ => {
            let xs = ["alias run='make run'", "alias build='make'", "alias test='make test'"];
            let r = strings_of(&xs);
            assert(views(r@) =~= seq!["alias run='make run'"@, "alias build='make'"@, "alias test='make test'"@]);
            r
        },
    }
}

} // verus!
