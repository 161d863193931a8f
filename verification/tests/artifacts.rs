use compact_mcp::artifacts::contract_info::{
    ts_type, Argument, Circuit, ContractInfo, LedgerField, StructField, TypeElement, TypeRef, Witness,
};
use compact_mcp::artifacts::scaffold::witnesses_ts;
use compact_mcp::artifacts::zkir::{Instruction, Zkir, ZkirStats, ZkirVersion};
use compact_mcp::artifacts::{
    candidates, check_target_dir, contract_info_path, finish_artifact_read, malformed_artifact,
    plan_artifact_read, scan, Artifacts, EntryKind, FileWalk, Places, MAX_ARTIFACT_BYTES,
};
use compact_mcp::error::{CoreError, IoError, IoKind};
use compact_mcp::json::Json;

fn tuple() -> TypeRef {
    TypeRef::named("Tuple")
}

fn circuit(name: &str, proof: bool, result_type: TypeRef) -> Circuit {
    Circuit { name: name.to_string(), pure: false, proof, arguments: vec![], result_type }
}

fn info(circuits: Vec<Circuit>, witnesses: Vec<Witness>) -> ContractInfo {
    ContractInfo {
        compiler_version: "0.31.1".to_string(),
        language_version: "0.23.0".to_string(),
        runtime_version: "0.16.0".to_string(),
        circuits,
        witnesses,
        contracts: vec![],
        ledger: vec![LedgerField {
            name: "n".to_string(),
            index: 0,
            exported: true,
            storage: "Counter".to_string(),
        }],
    }
}

fn two_circuits() -> ContractInfo {
    info(
        vec![
            circuit("increment", true, tuple()),
            circuit("reveal", false, TypeRef::named("Field")),
        ],
        vec![],
    )
}

fn point() -> TypeRef {
    TypeRef {
        name: Some("Point".to_string()),
        elements: vec![
            TypeElement::Field(StructField { name: "x".to_string(), ty: TypeRef::named("Field") }),
            TypeElement::Field(StructField { name: "y".to_string(), ty: TypeRef::named("Field") }),
        ],
        ..TypeRef::named("Struct")
    }
}

fn io(kind: IoKind) -> IoError {
    IoError { kind, message: "it failed".to_string() }
}

/// Scans a target directory at `/t` whose canonical places are `canon`.
fn scan_with(info: ContractInfo, files: &[&str], canon: &[(&str, &str)]) -> Artifacts {
    let place = |rel: &String| {
        canon.iter().find(|(p, _)| *p == rel.as_str()).map(|(_, c)| c.to_string())
    };
    let mut places = Vec::new();
    for c in &info.circuits {
        places.push(match candidates(&c.name) {
            Some(paths) => Places {
                zkir: place(&paths.zkir),
                bzkir: place(&paths.bzkir),
                prover_key: place(&paths.prover_key),
                verifier_key: place(&paths.verifier_key),
            },
            None => Places { zkir: None, bzkir: None, prover_key: None, verifier_key: None },
        });
    }
    scan(
        &Some("/t".to_string()),
        info,
        files.iter().map(|f| f.to_string()).collect(),
        &places,
    )
}

#[test]
fn maps_compact_types_to_typescript() {
    assert_eq!(ts_type(&TypeRef::named("Field")), "bigint");
    assert_eq!(ts_type(&TypeRef::named("Boolean")), "boolean");
    assert_eq!(
        ts_type(&TypeRef {
            length: Some(32),
            ..TypeRef::named("Bytes")
        }),
        "Uint8Array"
    );
    assert_eq!(
        ts_type(&TypeRef {
            maxval: Some(65535),
            ..TypeRef::named("Uint")
        }),
        "bigint"
    );
    assert_eq!(ts_type(&TypeRef::named("Tuple")), "[]");
    assert_eq!(ts_type(&TypeRef::named("Wat")), "unknown");
}

#[test]
fn non_empty_tuple_result_maps_to_typescript_tuple() {
    let t = TypeRef {
        types: vec![TypeRef::named("Field"), TypeRef::named("Boolean")],
        ..TypeRef::named("Tuple")
    };
    assert_eq!(ts_type(&t), "[bigint, boolean]");
}

#[test]
fn empty_struct_maps_to_empty_object() {
    let t = TypeRef {
        name: Some("Empty".to_string()),
        ..TypeRef::named("Struct")
    };
    assert_eq!(ts_type(&t), "{  }");
}

#[test]
fn a_vector_missing_its_element_type_is_unknown_not_a_wrong_type() {
    let t = TypeRef {
        length: Some(3),
        ..TypeRef::named("Vector")
    };
    assert_eq!(ts_type(&t), "unknown");
}

#[test]
fn vector_param_maps_to_element_array() {
    let t = TypeRef {
        length: Some(3),
        element_type: Some(Box::new(TypeRef::named("Field"))),
        ..TypeRef::named("Vector")
    };
    assert_eq!(ts_type(&t), "bigint[]");
}

#[test]
fn struct_param_maps_to_object_literal() {
    assert_eq!(ts_type(&point()), "{ x: bigint, y: bigint }");
}

#[test]
fn enum_param_maps_to_number() {
    let t = TypeRef {
        name: Some("Colour".to_string()),
        elements: vec![
            TypeElement::Variant("red".to_string()),
            TypeElement::Variant("green".to_string()),
            TypeElement::Variant("blue".to_string()),
        ],
        ..TypeRef::named("Enum")
    };
    assert_eq!(ts_type(&t), "number");
}

#[test]
fn nested_vector_of_struct_maps_precisely() {
    let t = TypeRef {
        length: Some(2),
        element_type: Some(Box::new(point())),
        ..TypeRef::named("Vector")
    };
    assert_eq!(ts_type(&t), "{ x: bigint, y: bigint }[]");
}

#[test]
fn a_default_type_has_no_name_and_is_unknown() {
    let t = TypeRef::default();
    assert_eq!(t.ty_name, "");
    assert_eq!(ts_type(&t), "unknown");
}

#[test]
fn load_reads_a_valid_file_from_disk() {
    let limit = plan_artifact_read("/t/contract-info.json", Ok(12)).unwrap();
    assert!(limit >= 12);
    let text = finish_artifact_read("/t/contract-info.json", Ok(b"{\"a\": 1}".to_vec())).unwrap();
    assert_eq!(text, "{\"a\": 1}");
}

#[test]
fn load_missing_file_is_artifact_missing() {
    let path = "/t/does-not-exist.json";
    let err = plan_artifact_read(path, Err(io(IoKind::NotFound))).unwrap_err();
    assert!(
        matches!(err, CoreError::ArtifactMissing(ref p) if p == path),
        "expected ArtifactMissing({path}), got {err:?}"
    );
    let err = finish_artifact_read(path, Err(io(IoKind::NotFound))).unwrap_err();
    assert!(matches!(err, CoreError::ArtifactMissing(ref p) if p == path), "got {err:?}");
}

#[test]
fn load_non_notfound_io_error_is_not_reported_as_missing() {
    let err = finish_artifact_read("/t", Err(io(IoKind::Other))).unwrap_err();
    assert!(
        matches!(err, CoreError::Io(_)),
        "expected Io for a non-NotFound read failure, got {err:?}"
    );
    let err = plan_artifact_read("/t", Err(io(IoKind::Other))).unwrap_err();
    assert!(matches!(err, CoreError::Io(_)), "got {err:?}");
}

#[test]
fn load_rejects_an_oversized_artifact_before_reading_it() {
    let err = plan_artifact_read("/t/contract-info.json", Ok(MAX_ARTIFACT_BYTES + 1)).unwrap_err();
    assert!(
        matches!(err, CoreError::MalformedArtifact { ref reason, .. } if reason.contains("maximum size")),
        "expected an oversize rejection carrying the limit, got {err:?}"
    );
    assert!(plan_artifact_read("/t/contract-info.json", Ok(MAX_ARTIFACT_BYTES)).is_ok());
}

#[test]
fn a_file_that_grew_while_it_was_read_is_rejected_too() {
    let bytes = vec![b' '; MAX_ARTIFACT_BYTES as usize + 1];
    let err = finish_artifact_read("/t/contract-info.json", Ok(bytes)).unwrap_err();
    assert!(
        matches!(err, CoreError::MalformedArtifact { ref reason, .. } if reason.contains("maximum size")),
        "got {err:?}"
    );
}

#[test]
fn bytes_that_are_no_text_are_malformed_or_unreadable_never_mangled() {
    let bytes = vec![b'{', 0xff, b'}'];
    let err = finish_artifact_read("/t/contract-info.json", Ok(bytes.clone())).unwrap_err();
    let expected = String::from_utf8(bytes).unwrap_err().utf8_error().to_string();
    assert!(err.message().contains(&expected), "got {}", err.message());
}

#[test]
fn load_malformed_json_is_malformed_artifact() {
    let err = malformed_artifact("/t/contract-info.json", "key must be a string");
    assert!(
        matches!(err, CoreError::MalformedArtifact { .. }),
        "expected MalformedArtifact, got {err:?}"
    );
    assert_eq!(
        err.message(),
        "malformed artifact /t/contract-info.json: key must be a string"
    );
}

#[test]
fn a_skip_zk_build_has_zkir_only_for_proof_circuits_and_no_keys() {
    let a = scan_with(
        two_circuits(),
        &["zkir/increment.zkir", "contract/index.d.ts", "compiler/contract-info.json"],
        &[("zkir/increment.zkir", "/t/zkir/increment.zkir")],
    );
    assert!(!a.proving_keys);
    let inc = a.circuits.iter().find(|c| c.name == "increment").unwrap();
    let rev = a.circuits.iter().find(|c| c.name == "reveal").unwrap();
    assert_eq!(inc.zkir.as_deref(), Some("zkir/increment.zkir"));
    assert!(inc.prover_key.is_none());
    assert!(rev.zkir.is_none(), "proof:false circuits emit no zkir");
    assert!(a.files.iter().any(|f| f.ends_with("index.d.ts")));
    assert_eq!(
        a.files,
        vec!["compiler/contract-info.json", "contract/index.d.ts", "zkir/increment.zkir"]
    );
}

#[test]
fn a_full_build_reports_keys_and_bzkir() {
    let a = scan_with(
        two_circuits(),
        &[],
        &[
            ("zkir/increment.zkir", "/t/zkir/increment.zkir"),
            ("zkir/increment.bzkir", "/t/zkir/increment.bzkir"),
            ("keys/increment.prover", "/t/keys/increment.prover"),
            ("keys/increment.verifier", "/t/keys/increment.verifier"),
        ],
    );
    assert!(a.proving_keys);
    let inc = &a.circuits[0];
    assert!(inc.bzkir.is_some() && inc.prover_key.is_some() && inc.verifier_key.is_some());
}

#[test]
fn a_missing_target_dir_is_a_clear_error() {
    assert!(matches!(
        check_target_dir("/t/nope", false),
        Err(CoreError::ArtifactMissing(_))
    ));
    assert!(check_target_dir("/t", true).is_ok());
    assert_eq!(contract_info_path("/t"), "/t/compiler/contract-info.json");
}

#[test]
fn a_crafted_circuit_name_cannot_escape_the_target_dir() {
    assert!(candidates("../../secret").is_none());
    assert!(candidates("a/b").is_none());
    assert!(candidates("..").is_none());
    assert!(candidates("").is_none());
    let crafted = info(vec![circuit("../../secret", true, TypeRef::named("Field"))], vec![]);
    let places = vec![Places {
        zkir: Some("/t/zkir/x.zkir".to_string()),
        bzkir: None,
        prover_key: Some("/t/keys/x.prover".to_string()),
        verifier_key: None,
    }];
    let a = scan(&Some("/t".to_string()), crafted, vec![], &places);
    let c = &a.circuits[0];
    assert_eq!(c.name, "../../secret");
    assert!(
        c.zkir.is_none(),
        "an unsafe circuit name must not resolve to an out-of-tree file"
    );
    assert!(c.bzkir.is_none() && c.prover_key.is_none() && c.verifier_key.is_none());
    assert!(!a.proving_keys);
}

#[test]
fn a_symlinked_artifact_pointing_outside_is_not_surfaced() {
    let a = scan_with(two_circuits(), &[], &[("zkir/increment.zkir", "/secret.zkir")]);
    let inc = a.circuits.iter().find(|c| c.name == "increment").unwrap();
    assert!(
        inc.zkir.is_none(),
        "a symlinked artifact pointing outside the workspace must not be surfaced"
    );
    // A directory whose name merely starts alike is outside as well.
    let a = scan_with(two_circuits(), &[], &[("zkir/increment.zkir", "/target/increment.zkir")]);
    assert!(a.circuits[0].zkir.is_none());
}

#[test]
fn collect_does_not_follow_symlinks_out_of_the_tree() {
    let mut walk = FileWalk::new();
    assert_eq!(walk.next_dir().as_deref(), Some(""));
    walk.note("", "compiler", EntryKind::Directory);
    walk.note("", "link", EntryKind::Symlink);
    walk.note("", "top.txt", EntryKind::File);
    let dir = walk.next_dir().unwrap();
    assert_eq!(dir, "compiler");
    walk.note(&dir, "contract-info.json", EntryKind::File);
    assert_eq!(walk.next_dir(), None, "a symlink must not be recursed into");
    let files = walk.into_files();
    assert_eq!(files, vec!["top.txt", "compiler/contract-info.json"]);
}

#[test]
fn a_whole_walk_finds_exactly_the_files() {
    let tree: Vec<(&str, Vec<(&str, EntryKind)>)> = vec![
        ("", vec![("a", EntryKind::Directory), ("f", EntryKind::File), ("b", EntryKind::Directory)]),
        ("a", vec![("c", EntryKind::Directory), ("l", EntryKind::Symlink), ("g", EntryKind::File)]),
        ("a/c", vec![("h", EntryKind::File), ("l", EntryKind::Symlink)]),
        ("b", vec![]),
        ("a/l", vec![("never", EntryKind::File)]),
    ];
    let mut walk = FileWalk::new();
    let mut looked = vec![];
    while let Some(dir) = walk.next_dir() {
        let (_, entries) = tree.iter().find(|(d, _)| *d == dir).unwrap();
        for (name, kind) in entries {
            let kind = match kind {
                EntryKind::File => EntryKind::File,
                EntryKind::Directory => EntryKind::Directory,
                EntryKind::Symlink => EntryKind::Symlink,
            };
            walk.note(&dir, name, kind);
        }
        looked.push(dir);
    }
    looked.sort();
    assert_eq!(looked, vec!["", "a", "a/c", "b"]);
    let mut files = walk.into_files();
    files.sort();
    assert_eq!(files, vec!["a/c/h", "a/g", "f"]);
}

fn witness(name: &str, arguments: Vec<(&str, TypeRef)>, result_type: TypeRef) -> Witness {
    Witness {
        name: name.to_string(),
        arguments: arguments
            .into_iter()
            .map(|(n, ty)| Argument { name: n.to_string(), ty })
            .collect(),
        result_type,
    }
}

fn lookup_and_flag() -> ContractInfo {
    info(
        vec![],
        vec![
            witness(
                "lookup",
                vec![
                    ("key", TypeRef { length: Some(32), ..TypeRef::named("Bytes") }),
                    ("idx", TypeRef { maxval: Some(65535), ..TypeRef::named("Uint") }),
                ],
                TypeRef::named("Field"),
            ),
            witness("flag", vec![], TypeRef::named("Boolean")),
        ],
    )
}

#[test]
fn generates_a_stub_matching_the_generated_witnesses_type() {
    let ts = witnesses_ts(&lookup_and_flag());

    assert!(ts.contains("key_0: Uint8Array"), "{ts}");
    assert!(ts.contains("idx_0: bigint"), "{ts}");
    assert!(ts.contains("[PrivateState, bigint]"), "{ts}");
    assert!(ts.contains("[PrivateState, boolean]"), "{ts}");

    assert!(ts.contains("lookup(context, key_0, idx_0) {"), "{ts}");
    assert!(ts.contains("flag(context) {"), "{ts}");
    assert!(
        ts.contains("export const witnesses: Witnesses<PrivateState>"),
        "{ts}"
    );
    assert!(ts.contains("not implemented"), "{ts}");
}

#[test]
fn a_contract_with_no_referenced_witnesses_says_so() {
    let ts = witnesses_ts(&info(vec![], vec![]));
    assert!(ts.contains("No witnesses are referenced"), "{ts}");
}

fn increment_zkir() -> Zkir {
    let imm = |v: &str| Instruction {
        op: "load_imm".to_string(),
        rest: vec![("imm".to_string(), Json::string(v))],
    };
    let add = || Instruction { op: "add".to_string(), rest: vec![] };
    Zkir {
        version: ZkirVersion { major: 2, minor: 0 },
        do_communications_commitment: true,
        num_inputs: 0,
        instructions: vec![imm("01"), imm("70"), add(), add()],
    }
}

fn count(s: &ZkirStats, op: &str) -> usize {
    s.opcodes.iter().find(|(o, _)| o == op).unwrap().1
}

#[test]
fn counts_instructions_and_histograms_opcodes() {
    let s = ZkirStats::from_zkir("increment", &increment_zkir());
    assert_eq!(s.circuit, "increment");
    assert_eq!(s.instruction_count, 4);
    assert_eq!(s.num_inputs, 0);
    assert_eq!(s.version, "2.0");
    assert_eq!(count(&s, "load_imm"), 2);
    assert_eq!(count(&s, "add"), 2);
}

#[test]
fn opcodes_are_counted_in_order() {
    let s = ZkirStats::from_zkir("increment", &increment_zkir());
    let ops: Vec<&str> = s.opcodes.iter().map(|(o, _)| o.as_str()).collect();
    assert_eq!(ops, vec!["add", "load_imm"]);
    let total: usize = s.opcodes.iter().map(|(_, n)| n).sum();
    assert_eq!(total, s.instruction_count);
}

#[test]
fn stats_missing_file_is_artifact_missing() {
    let path = "/t/nope.zkir";
    let err = plan_artifact_read(path, Err(io(IoKind::NotFound))).unwrap_err();
    assert!(
        matches!(err, CoreError::ArtifactMissing(ref p) if p == path),
        "expected ArtifactMissing({path}), got {err:?}"
    );
}

#[test]
fn stats_non_notfound_io_error_is_not_reported_as_missing() {
    assert_eq!(plan_artifact_read("/t", Ok(4096)).unwrap(), MAX_ARTIFACT_BYTES + 1);
    let err = finish_artifact_read("/t", Err(io(IoKind::Other))).unwrap_err();
    assert!(
        matches!(err, CoreError::Io(_)),
        "expected Io for a non-NotFound read failure, got {err:?}"
    );
}

#[test]
fn stats_malformed_zkir_is_malformed_artifact() {
    let path = "/t/bad.zkir";
    let text = finish_artifact_read(path, Ok(b"{ not json".to_vec())).unwrap();
    let reason = serde_json::from_str::<serde_json::Value>(&text).unwrap_err().to_string();
    let err = malformed_artifact(path, &reason);
    assert!(
        matches!(err, CoreError::MalformedArtifact { .. }),
        "expected MalformedArtifact, got {err:?}"
    );
}

#[test]
fn zkir_stats_shape_is_stable() {
    let z = Zkir {
        version: ZkirVersion { major: 2, minor: 0 },
        do_communications_commitment: true,
        num_inputs: 0,
        instructions: vec![
            Instruction {
                op: "load_imm".to_string(),
                rest: vec![("imm".to_string(), Json::Str("01".to_string()))],
            },
            Instruction { op: "add".to_string(), rest: vec![] },
        ],
    };
    let s = ZkirStats::from_zkir("increment", &z);
    assert_eq!(s.circuit, "increment");
    assert_eq!(s.instruction_count, 2);
    assert_eq!(s.num_inputs, 0);
    assert_eq!(s.version, "2.0");
    assert_eq!(s.opcodes, vec![("add".to_string(), 1), ("load_imm".to_string(), 1)]);
}

fn field_witness(name: &str, arguments: Vec<(&str, TypeRef)>) -> Witness {
    witness(name, arguments, TypeRef::named("Field"))
}

#[test]
fn witness_scaffold_output_is_stable() {
    let info = info(
        vec![],
        vec![field_witness(
            "lookup",
            vec![
                ("key", TypeRef { length: Some(32), ..TypeRef::named("Bytes") }),
                ("idx", TypeRef { maxval: Some(65535), ..TypeRef::named("Uint") }),
            ],
        )],
    );
    assert_eq!(
        witnesses_ts(&info),
        "import type { Witnesses } from './contract/index.js';\n\
         \n\
         export type PrivateState = Record<string, never>;\n\
         \n\
         export const witnesses: Witnesses<PrivateState> = {\n\
         \x20 // lookup(context: WitnessContext<Ledger, PrivateState>, key_0: Uint8Array, \
         idx_0: bigint): [PrivateState, bigint]\n\
         \x20 lookup(context, key_0, idx_0) {\n\
         \x20   throw new Error('witness `lookup` is not implemented');\n\
         \x20 },\n\
         };\n"
    );
}

#[test]
fn composite_witness_scaffold_output_is_stable() {
    let variant = |v: &str| TypeElement::Variant(v.to_string());
    let vector = |n: u64, element: TypeRef| TypeRef {
        length: Some(n),
        element_type: Some(Box::new(element)),
        ..TypeRef::named("Vector")
    };
    let colour = TypeRef {
        name: Some("Colour".to_string()),
        elements: vec![variant("red"), variant("green"), variant("blue")],
        ..TypeRef::named("Enum")
    };
    let info = info(
        vec![],
        vec![
            field_witness("vec_w", vec![("v", vector(3, TypeRef::named("Field")))]),
            field_witness("struct_w", vec![("p", point())]),
            field_witness("enum_w", vec![("c", colour)]),
            field_witness("vec_struct_w", vec![("vs", vector(2, point()))]),
        ],
    );
    let stub = |name: &str, arg: &str, ty: &str| {
        format!(
            "  // {name}(context: WitnessContext<Ledger, PrivateState>, {arg}: {ty}): \
             [PrivateState, bigint]\n  {name}(context, {arg}) {{\n    throw new Error('witness \
             `{name}` is not implemented');\n  }},\n"
        )
    };
    let expected = vec![
        "import type { Witnesses } from './contract/index.js';\n\n".to_string(),
        "export type PrivateState = Record<string, never>;\n\n".to_string(),
        "export const witnesses: Witnesses<PrivateState> = {\n".to_string(),
        stub("vec_w", "v_0", "bigint[]"),
        stub("struct_w", "p_0", "{ x: bigint, y: bigint }"),
        stub("enum_w", "c_0", "number"),
        stub("vec_struct_w", "vs_0", "{ x: bigint, y: bigint }[]"),
        "};\n".to_string(),
    ];
    assert_eq!(witnesses_ts(&info), expected.concat());
}
