//! Where things lie: paths, circuit folders, and the files of results.
use crate::circuit::{chained, loaded, Circuit, Folder, LoadError, Manifest};
use crate::laws::measurement::law_artifacts;
use crate::path::{final_name, joined, last_piece, lemma_last_piece, named_json};
use crate::pipeline::{label, Outcome};
use crate::report::{law_mb_is_the_nearest_hundredth, persists, result_location, BenchResult};
use vstd::prelude::*;

verus! {

/// Joining puts one `/` between the two; an absolute second path replaces the first.
pub proof fn law_join(base: Seq<char>, leaf: Seq<char>)
    ensures
        joined(base, seq!['/'] + leaf) == seq!['/'] + leaf,
        base.len() > 0 && base.last() != '/' && (leaf.len() > 0 ==> leaf[0] != '/') ==> joined(
            base,
            leaf,
        ) == base + seq!['/'] + leaf,
        (base.len() == 0 || base.last() == '/') && (leaf.len() > 0 ==> leaf[0] != '/') ==> joined(
            base,
            leaf,
        ) == base + leaf,
{
    assert((seq!['/'] + leaf)[0] == '/');
    assert(base.push('/') + leaf =~= base + seq!['/'] + leaf);
}

/// The name of a path is what follows its last `/`.
pub proof fn law_name_of_a_path(dir: Seq<char>, name: Seq<char>)
    requires
        name.len() > 0,
        !name.contains('/'),
        name != seq!['.'],
        name != seq!['.', '.'],
    ensures
        final_name(name) == Some(name),
        final_name(dir + seq!['/'] + name) == Some(name),
{
    lemma_piece(dir, name);
    assert(final_name(name) == Some(name)) by {
        assert forall|i: int| 0 <= i < name.len() implies name[i] != '/' by {
            assert(name.contains(name[i]));
        }
        lemma_last_piece(name, 0);
        assert(name.skip(0) =~= name);
    }
}

proof fn lemma_piece(dir: Seq<char>, piece: Seq<char>)
    requires
        !piece.contains('/'),
    ensures
        last_piece(dir + seq!['/'] + piece) == piece,
{
    let s = dir + seq!['/'] + piece;
    let k = dir.len() + 1;
    assert forall|i: int| k <= i < s.len() implies s[i] != '/' by {
        assert(s[i] == piece[i - k]);
        assert(piece.contains(piece[i - k]));
    }
    lemma_last_piece(s, k as int);
    assert(s.skip(k as int) =~= piece);
}

/// Slashes and dots at the end do not change the name of a path, and a path that ends in `..`, or
/// is empty, has none.
pub proof fn law_ends_of_a_path(path: Seq<char>)
    ensures
        final_name(path + seq!['/']) == final_name(path),
        final_name(path + seq!['/', '.']) == final_name(path),
        final_name(path + seq!['/', '.', '.']) is None,
        final_name(seq!['.']) is None,
        final_name(seq!['.', '.']) is None,
        final_name(Seq::<char>::empty()) is None,
{
    let none = Seq::<char>::empty();
    let dot = seq!['.'];
    let dots = seq!['.', '.'];
    assert(!none.contains('/') && !dot.contains('/') && !dots.contains('/'));
    lemma_piece(path, none);
    lemma_piece(path, dot);
    lemma_piece(path, dots);
    assert(path + seq!['/'] + none =~= path + seq!['/']);
    assert(path + seq!['/'] + dot =~= path + seq!['/', '.']);
    assert(path + seq!['/'] + dots =~= path + seq!['/', '.', '.']);
    assert((path + seq!['/']).take(path.len() as int) =~= path);
    assert((path + seq!['/', '.']).take(path.len() as int) =~= path);
    assert(none.len() == 0 && dot.len() == 1 && dots.len() == 2);
    lemma_last_piece(dot, 0);
    assert(dot.skip(0) =~= dot);
    lemma_last_piece(dots, 0);
    assert(dots.skip(0) =~= dots);
}

/// A circuit whose folder was given as `path` is labelled by the name of that path or, where it
/// has none, by the path.
pub proof fn law_label(path: Seq<char>)
    ensures
        final_name(path) matches Some(name) ==> label(path) == name,
        final_name(path) is None ==> label(path) == path,
{
}

/// A path is that of a JSON file exactly where its name is something followed by `.json`.
pub proof fn law_json_file(path: Seq<char>)
    ensures
        named_json(path) <==> (final_name(path) matches Some(name) && exists|stem: Seq<char>|
            stem.len() > 0 && name == #[trigger] (stem + ".json"@)),
{
    reveal_strlit(".json");
    let end = ".json"@;
    assert(end =~= seq!['.', 'j', 's', 'o', 'n']);
    if let Some(name) = final_name(path) {
        if named_json(path) {
            let stem = name.take(name.len() - 5);
            assert(name.skip(name.len() - 5) == end);
            assert(name =~= stem + name.skip(name.len() - 5));
        } else if exists|stem: Seq<char>| stem.len() > 0 && name == #[trigger] (stem + end) {
            let stem = choose|stem: Seq<char>| stem.len() > 0 && name == #[trigger] (stem + end);
            assert(name.skip(name.len() - 5) =~= end);
        }
    }
}

/// A result is written to `results/<circuit>_<stamp>.json`.
pub proof fn law_place_of_a_result(circuit: Seq<char>, stamp: Seq<char>)
    requires
        circuit.len() > 0 ==> circuit[0] != '/',
    ensures
        result_location(circuit, stamp) == "results/"@ + circuit + "_"@ + stamp + ".json"@,
{
    reveal_strlit("results");
    reveal_strlit("results/");
    reveal_strlit("_");
    reveal_strlit(".json");
    let name = circuit + "_"@ + stamp + ".json"@;
    assert(name[0] != '/');
    assert("results"@.push('/') + name =~= "results/"@ + circuit + "_"@ + stamp + ".json"@);
}

/// What is written of an outcome is all of it: every figure as it was, with the memory in MB to
/// the nearest hundredth beside the memory in KB.
pub proof fn law_result_keeps_every_figure(r: BenchResult, o: Outcome, timestamp: Seq<char>)
    requires
        persists(r, o, timestamp),
    ensures
        r.circuit@ == o.circuit@,
        r.backend@ == o.backend@,
        r.timestamp@ == timestamp,
        r.repeats == o.repeats,
        r.samples_used == o.samples_used,
        r.nargo_version@ == o.nargo_version@,
        r.bb_version@ == o.bb_version@,
        r.constraints == o.constraints,
        r.acir_opcodes == o.acir_opcodes,
        r.witness_time_ms == o.witness.time_ms,
        r.prove_time_ms == o.prove.time_ms,
        r.witness_kb == o.witness.peak_kb,
        r.prove_kb == o.prove.peak_kb,
        o.witness.peak_kb < 0x4000_0000_0000 ==> r.witness_mb_hundredths == (o.witness.peak_kb * 100
            + 512) / 1024,
        o.prove.peak_kb < 0x4000_0000_0000 ==> r.prove_mb_hundredths == (o.prove.peak_kb * 100 + 512)
            / 1024,
{
    if o.witness.peak_kb < 0x4000_0000_0000 {
        law_mb_is_the_nearest_hundredth(o.witness.peak_kb);
    }
    if o.prove.peak_kb < 0x4000_0000_0000 {
        law_mb_is_the_nearest_hundredth(o.prove.peak_kb);
    }
}

/// A folder is a circuit exactly where its path is there, it has both files, and its manifest was
/// read and names a package; the circuit is that package, its artifacts under `target`.
pub proof fn law_what_is_a_circuit(
    dir: Seq<char>,
    folder: Folder,
    r: Result<Circuit, LoadError>,
)
    requires
        loaded(dir, folder, r),
    ensures
        r is Ok <==> folder.canonical is Ok && folder.has_nargo_toml && folder.has_prover_toml
            && folder.manifest is Package,
        r matches Ok(c) ==> ({
            let path = (folder.canonical->Ok_0)@;
            let name = (folder.manifest->Package_name)@;
            &&& c.name@ == name
            &&& c.dir@ == path
            &&& path.len() > 0 && path.last() != '/' && (name.len() > 0 ==> name[0] != '/') ==> {
                &&& c.bytecode@ == path + "/target/"@ + name + ".json"@
                &&& c.witness@ == path + "/target/"@ + name + ".gz"@
                &&& c.proof_dir@ == path + "/target/proof"@
                &&& c.vk_dir@ == path + "/target/vk"@
            }
        }),
{
    if let Ok(c) = r {
        let path = (folder.canonical->Ok_0)@;
        let name = (folder.manifest->Package_name)@;
        if path.len() > 0 && path.last() != '/' && (name.len() > 0 ==> name[0] != '/') {
            law_artifacts(c, path, name);
        }
    }
}

/// What is said of a folder that is no circuit: the first of its faults, with its place and, where
/// the system or the parser gave one, its cause.
pub proof fn law_what_is_wrong_with_a_folder(
    dir: Seq<char>,
    folder: Folder,
    r: Result<Circuit, LoadError>,
)
    requires
        loaded(dir, folder, r),
    ensures
        r matches Err(e) ==> ({
            let text = chained(e.message_text(), e.cause_text());
            match folder.canonical {
                Err(cause) => text == "path not found: "@ + dir + ": "@ + cause@,
                Ok(path) => path@.len() > 0 && path@.last() != '/' ==> if !folder.has_nargo_toml {
                    text == "this does not look like a circuit folder (no Nargo.toml): "@ + path@
                } else if !folder.has_prover_toml {
                    text == "missing input file (Prover.toml): "@ + (path@ + "/Prover.toml"@)
                } else {
                    match folder.manifest {
                        Manifest::Unreadable { cause } => text == "failed to read Nargo.toml: "@ + (
                        path@ + "/Nargo.toml"@) + ": "@ + cause@,
                        Manifest::Unparsed { cause } => text
                            == "failed to parse Nargo.toml (check package.name)"@ + ": "@ + cause@,
                        Manifest::Package { .. } => false,
                    }
                },
            }
        }),
{
    reveal_strlit("Prover.toml");
    reveal_strlit("/Prover.toml");
    reveal_strlit("Nargo.toml");
    reveal_strlit("/Nargo.toml");
    if let Ok(path) = folder.canonical {
        assert(path@.push('/') + "Prover.toml"@ =~= path@ + "/Prover.toml"@);
        assert(path@.push('/') + "Nargo.toml"@ =~= path@ + "/Nargo.toml"@);
    }
}

} // verus!
