use zkbench::circuit::{Circuit, Folder, LoadError, Manifest};
use zkbench::path::{file_name, has_json_extension, join};
use zkbench::pipeline::{path_label, prove_args};

fn folder(nargo: bool, prover: bool, manifest: Manifest) -> Folder {
    Folder {
        canonical: Ok("/tmp/circuits/x".to_string()),
        has_nargo_toml: nargo,
        has_prover_toml: prover,
        manifest,
    }
}

fn package(name: &str) -> Manifest {
    let text = format!("[package]\nname = \"{name}\"\ntype = \"bin\"\n");
    let parsed: toml::Table = toml::from_str(&text).unwrap();
    Manifest::Package { name: parsed["package"]["name"].as_str().unwrap().to_string() }
}

#[test]
fn missing_nargo_toml_is_rejected() {
    let found = folder(false, false, Manifest::Unreadable { cause: "no such file".to_string() });
    let err = Circuit::load("x", found).unwrap_err();
    assert!(err.message().contains("Nargo.toml"), "got: {:?}", err);
    assert_eq!(
        err.describe(),
        "this does not look like a circuit folder (no Nargo.toml): /tmp/circuits/x"
    );
}

#[test]
fn missing_prover_toml_is_rejected() {
    let err = Circuit::load("x", folder(true, false, package("demo"))).unwrap_err();
    assert!(err.message().contains("Prover.toml"), "got: {:?}", err);
    assert_eq!(
        err.describe(),
        "missing input file (Prover.toml): /tmp/circuits/x/Prover.toml"
    );
}

#[test]
fn valid_circuit_parses_name_and_derives_paths() {
    let circuit = Circuit::load("x", folder(true, true, package("demo"))).unwrap();
    assert_eq!(circuit.name, "demo");
    assert!(circuit.bytecode.ends_with("target/demo.json"));
    assert!(circuit.witness.ends_with("target/demo.gz"));
    assert!(circuit.proof_dir.ends_with("target/proof"));
    assert_eq!(circuit.dir, "/tmp/circuits/x");
    assert_eq!(circuit.vk_dir, "/tmp/circuits/x/target/vk");
}

#[test]
fn missing_path_is_rejected_first() {
    let found = Folder {
        canonical: Err("No such file or directory (os error 2)".to_string()),
        has_nargo_toml: true,
        has_prover_toml: true,
        manifest: package("demo"),
    };
    let err = Circuit::load("nowhere", found).unwrap_err();
    assert!(matches!(err, LoadError::PathNotFound { .. }));
    assert_eq!(err.message(), "path not found: nowhere");
    assert_eq!(
        err.describe(),
        "path not found: nowhere: No such file or directory (os error 2)"
    );
}

#[test]
fn unreadable_and_unparsed_manifests_are_rejected() {
    let unread = Manifest::Unreadable { cause: "permission denied".to_string() };
    let err = Circuit::load("x", folder(true, true, unread)).unwrap_err();
    assert_eq!(
        err.describe(),
        "failed to read Nargo.toml: /tmp/circuits/x/Nargo.toml: permission denied"
    );
    let unparsed = Manifest::Unparsed { cause: "missing field `package`".to_string() };
    let err = Circuit::load("x", folder(true, true, unparsed)).unwrap_err();
    assert_eq!(
        err.describe(),
        "failed to parse Nargo.toml (check package.name): missing field `package`"
    );
}

#[test]
fn joining_follows_the_standard_library() {
    for base in ["", "/", "a", "a/", "/a/b", "/a/b//", "."] {
        for leaf in ["", "x", "x/y", "/x", "/", "..", ".json"] {
            let want = std::path::Path::new(base).join(leaf);
            assert_eq!(join(base, leaf), want.to_str().unwrap(), "{base:?} {leaf:?}");
        }
    }
}

#[test]
fn names_and_extensions_follow_the_standard_library() {
    let paths = [
        "", "/", "//", ".", "..", "a", "a/", "a//", "/a", "./a", "a/.", "a/./.", "a/..", "a/../b",
        "a/b", "a.json", "x/a.json", ".json", "a/.json", "..json", "a.JSON", "ajson", "a.json/",
        "a.json/.", "a.b.json", "json", "./.", "/..", "/.", "...", "b/...", "ü.json", "é/日本",
    ];
    for p in paths {
        let path = std::path::Path::new(p);
        let name = path.file_name().map(|n| n.to_str().unwrap().to_string());
        assert_eq!(file_name(p), name, "{p:?}");
        let json = path.extension().and_then(|e| e.to_str()) == Some("json");
        assert_eq!(has_json_extension(p), json, "{p:?}");
        let label = name.unwrap_or_else(|| path.display().to_string());
        assert_eq!(path_label(p), label, "{p:?}");
    }
}

#[test]
fn prove_arguments_name_the_precomputed_key() {
    let circuit = Circuit::locate("/c".to_string(), "demo".to_string());
    assert_eq!(
        prove_args(&circuit),
        [
            "prove", "-s", "ultra_honk", "-b", "/c/target/demo.json", "-w", "/c/target/demo.gz",
            "-o", "/c/target/proof", "-k", "/c/target/vk/vk",
        ]
    );
}
