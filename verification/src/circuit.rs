//! Circuit discovery: what makes a directory a circuit, and where its artifacts lie.
use crate::path::{join, joined};
use vstd::prelude::*;

verus! {

/// A resolved, validated circuit under test.
///
/// Artifact filenames all derive from the package `name` in Nargo.toml:
///   target/<name>.json  = ACIR bytecode  (input to `bb`)
///   target/<name>.gz    = witness        (input to `bb prove`)
#[derive(Debug)]
pub struct Circuit {
    pub name: String,
    pub dir: String,
    pub bytecode: String,
    pub witness: String,
    pub proof_dir: String,
    /// Directory for the precomputed verification key. `bb write_vk -o <vk_dir>`
    /// writes a `vk` file inside it, which `bb prove -k` then reads.
    pub vk_dir: String,
}

/// What was read in the `Nargo.toml` of a directory.
#[derive(Debug)]
pub enum Manifest {
    /// The file could not be read.
    Unreadable { cause: String },
    /// The file is not a manifest with a package name.
    Unparsed { cause: String },
    /// The package name.
    Package { name: String },
}

/// What was found at the path of a circuit.
#[derive(Debug)]
pub struct Folder {
    /// The absolute path without symbolic links, or why there is none.
    pub canonical: Result<String, String>,
    pub has_nargo_toml: bool,
    pub has_prover_toml: bool,
    pub manifest: Manifest,
}

/// Why a directory is no circuit: the common "wrong folder" mistakes.
#[derive(Debug)]
pub enum LoadError {
    PathNotFound { dir: String, cause: String },
    NoNargoToml { dir: String },
    NoProverToml { path: String },
    Unreadable { path: String, cause: String },
    Unparsed { cause: String },
}

/// A message, followed by what caused it where that is known.
pub open spec fn chained(message: Seq<char>, cause: Option<Seq<char>>) -> Seq<char> {
    match cause {
        Some(c) => message + ": "@ + c,
        None => message,
    }
}

/// The text of an error that has a cause.
pub fn chain(message: String, cause: &str) -> (r: String)
    ensures
        r@ == chained(message@, Some(cause@)),
{
    let mut r = message;
    r.append(": ");
    r.append(cause);
    r
}

impl Circuit {
    /// Whether this is the circuit of package `name` in directory `dir`, its artifacts where the
    /// tools put them.
    pub open spec fn stands_in(self, dir: Seq<char>, name: Seq<char>) -> bool {
        let target = joined(dir, "target"@);
        &&& self.name@ == name
        &&& self.dir@ == dir
        &&& self.bytecode@ == joined(target, name + ".json"@)
        &&& self.witness@ == joined(target, name + ".gz"@)
        &&& self.proof_dir@ == joined(target, "proof"@)
        &&& self.vk_dir@ == joined(target, "vk"@)
    }

    /// The circuit of package `name` in directory `dir`.
    pub fn locate(dir: String, name: String) -> (r: Circuit)
        ensures
            r.stands_in(dir@, name@),
    {
        let target = join(&dir, "target");
        let mut json = name.clone();
        json.append(".json");
        let mut gz = name.clone();
        gz.append(".gz");
        Circuit {
            bytecode: join(&target, &json),
            witness: join(&target, &gz),
            proof_dir: join(&target, "proof"),
            vk_dir: join(&target, "vk"),
            name,
            dir,
        }
    }

    /// Validates that what was found at `dir` is a circuit folder, and computes artifact paths.
    pub fn load(dir: &str, folder: Folder) -> (r: Result<Circuit, LoadError>)
        ensures
            loaded(dir@, folder, r),
    {
        let path = match folder.canonical {
            Ok(path) => path,
            Err(cause) => {
                return Err(LoadError::PathNotFound { dir: String::from_str(dir), cause });
            },
        };
        if !folder.has_nargo_toml {
            return Err(LoadError::NoNargoToml { dir: path });
        }
        if !folder.has_prover_toml {
            return Err(LoadError::NoProverToml { path: join(&path, "Prover.toml") });
        }
        match folder.manifest {
            Manifest::Unreadable { cause } => {
                Err(LoadError::Unreadable { path: join(&path, "Nargo.toml"), cause })
            },
            Manifest::Unparsed { cause } => Err(LoadError::Unparsed { cause }),
            Manifest::Package { name } => Ok(Circuit::locate(path, name)),
        }
    }
}

/// Whether `r` is what loading the circuit at `dir` gives: the first thing that is missing, in
/// the order in which a user has to mend it, or the circuit.
pub open spec fn loaded(dir: Seq<char>, folder: Folder, r: Result<Circuit, LoadError>) -> bool {
    match folder.canonical {
        Err(c) => r matches Err(LoadError::PathNotFound { dir: d, cause }) && d@ == dir && cause == c,
        Ok(path) => if !folder.has_nargo_toml {
            r matches Err(LoadError::NoNargoToml { dir: d }) && d == path
        } else if !folder.has_prover_toml {
            r matches Err(LoadError::NoProverToml { path: p }) && p@ == joined(path@, "Prover.toml"@)
        } else {
            match folder.manifest {
                Manifest::Unreadable { cause: c } => r matches Err(
                    LoadError::Unreadable { path: p, cause },
                ) && p@ == joined(path@, "Nargo.toml"@) && cause == c,
                Manifest::Unparsed { cause: c } => r matches Err(LoadError::Unparsed { cause })
                    && cause == c,
                Manifest::Package { name } => r matches Ok(circuit) && circuit.stands_in(
                    path@,
                    name@,
                ),
            }
        },
    }
}

impl LoadError {
    /// The message, without its cause.
    pub open spec fn message_text(self) -> Seq<char> {
        match self {
            LoadError::PathNotFound { dir, .. } => "path not found: "@ + dir@,
            LoadError::NoNargoToml { dir } =>
                "this does not look like a circuit folder (no Nargo.toml): "@ + dir@,
            LoadError::NoProverToml { path } => "missing input file (Prover.toml): "@ + path@,
            LoadError::Unreadable { path, .. } => "failed to read Nargo.toml: "@ + path@,
            LoadError::Unparsed { .. } => "failed to parse Nargo.toml (check package.name)"@,
        }
    }

    /// What caused the error, where something outside did.
    pub open spec fn cause_text(self) -> Option<Seq<char>> {
        match self {
            LoadError::PathNotFound { cause, .. } => Some(cause@),
            LoadError::NoNargoToml { .. } => None,
            LoadError::NoProverToml { .. } => None,
            LoadError::Unreadable { cause, .. } => Some(cause@),
            LoadError::Unparsed { cause } => Some(cause@),
        }
    }

    /// The message, without its cause.
    pub fn message(&self) -> (r: String)
        ensures
            r@ == self.message_text(),
    {
        match self {
            LoadError::PathNotFound { dir, .. } => String::from_str("path not found: ").concat(dir),
            LoadError::NoNargoToml { dir } => String::from_str(
                "this does not look like a circuit folder (no Nargo.toml): ",
            ).concat(dir),
            LoadError::NoProverToml { path } => String::from_str(
                "missing input file (Prover.toml): ",
            ).concat(path),
            LoadError::Unreadable { path, .. } => String::from_str(
                "failed to read Nargo.toml: ",
            ).concat(path),
            LoadError::Unparsed { .. } => String::from_str(
                "failed to parse Nargo.toml (check package.name)",
            ),
        }
    }

    /// The message and, where there is one, its cause.
    pub fn describe(&self) -> (r: String)
        ensures
            r@ == chained(self.message_text(), self.cause_text()),
    {
        match self {
            LoadError::PathNotFound { cause, .. } => chain(self.message(), cause),
            LoadError::NoNargoToml { .. } => self.message(),
            LoadError::NoProverToml { .. } => self.message(),
            LoadError::Unreadable { cause, .. } => chain(self.message(), cause),
            LoadError::Unparsed { cause } => chain(self.message(), cause),
        }
    }
}

} // verus!
