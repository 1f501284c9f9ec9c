use proving_server::{
    buffer_word_count, count_pub_inputs, find_boundary, fix_verifier_sol, max_pub_inputs_addr,
    resolve_calldata, rewrite_line, split_lines, Buffer, TranspileError,
};

fn lines(v: &[&str]) -> Vec<String> {
    v.iter().map(|s| s.to_string()).collect()
}

const HEAD: &str = "// SPDX-License-Identifier: MIT\n    pragma solidity ^0.8.17;\n    \n    contract Verifier {\n        function verify(\n            uint256[] memory pubInputs,\n            bytes memory proof\n        ) public view returns (bool) {\n            bool success = true;\n            bytes32[";
const MID: &str = "] memory transcript;\n            assembly {";
const FOOT: &str = "} return success; } }\n";

fn listing(body: &[&str], with_markers: bool) -> Vec<String> {
    let mut v: Vec<String> = Vec::new();
    v.push("object \"plonk_verifier\" {".to_string());
    v.push("    code {".to_string());
    for i in 2..5 {
        v.push(format!("        // head {}", i));
    }
    if with_markers {
        v.push("        mstore(0x20, mod(calldataload(0x0), f_q))".to_string());
        v.push("        mstore(0x40, mod(calldataload(0x20), f_q))".to_string());
        v.push("        mstore(0x60, mod(calldataload(0x40), f_q))".to_string());
        v.push("        mstore(0x0, 0x1234)".to_string());
    } else {
        for i in 5..9 {
            v.push(format!("        // head {}", i));
        }
    }
    for i in 9..16 {
        v.push(format!("        // head {}", i));
    }
    for b in body {
        v.push(b.to_string());
    }
    for i in 0..7 {
        v.push(format!("    }} // tail {}", i));
    }
    v
}

#[test]
fn full_listing_with_public_inputs() {
    let body = [
        "        mstore8(17, x)",
        "        let a := calldataload(0x80)",
        "        success := and(success, staticcall(gas(), 0x5, 0xa0, 0xc0, 0xc0, 0x20))",
        "        let b := addmod(mload(0x20), mload(0x40), f_q)",
        "        let c := calldataload(0x20)",
    ];
    let ls = listing(&body, true);
    assert_eq!(ls.len(), 28);
    assert_eq!(count_pub_inputs(&ls), 3);
    let out = fix_verifier_sol(&ls).unwrap();
    let expected = format!(
        "{}{}{}{}{}{}{}{}{}",
        HEAD,
        6,
        MID,
        "        mstore8(add(transcript, 0x11), x)",
        "        let a := mload(add(proof, 0x40))",
        "        success := and(success, staticcall(gas(), 0x5, add(transcript, 0xa0), 0xc0, add(transcript, 0xc0), 0x20))",
        "        let b := addmod(mload(add(transcript, 0x20)), mload(add(transcript, 0x40)), f_q)",
        "        let c := mload(add(pubInputs, 0x40))",
        FOOT
    );
    assert_eq!(out, expected);
}

#[test]
fn transpile_twice_is_identical() {
    let body = ["        mstore(0x80, keccak256(0x00, 0x40))", "        let z := mload(0x80)"];
    let ls = listing(&body, true);
    let a = fix_verifier_sol(&ls).unwrap();
    let b = fix_verifier_sol(&ls.clone()).unwrap();
    assert_eq!(a, b);
    assert!(a.contains("mstore(add(transcript, 0x80), keccak256(add(transcript, 0x0), 0x40))"));
    assert!(a.starts_with(HEAD));
}

#[test]
fn no_markers_sends_calldata_to_proof() {
    let body = ["        let a := calldataload(0x0)", "        let b := calldataload(0x20)", "        mstore(0x40, a)"];
    let ls = listing(&body, false);
    assert_eq!(find_boundary(&ls), (None, None));
    assert_eq!(count_pub_inputs(&ls), 0);
    let out = fix_verifier_sol(&ls).unwrap();
    assert!(out.contains("let a := mload(add(proof, 0x0))"));
    assert!(out.contains("let b := mload(add(proof, 0x20))"));
    assert!(!out.contains("pubInputs, 0x"));
    assert_eq!(resolve_calldata(0, 0), (Buffer::Proof, 0));
    assert_eq!(rewrite_line("calldataload(0x0)", 0).unwrap().0, "mload(add(proof, 0x0))");
}

#[test]
fn boundary_at_lines_five_and_eight() {
    let mut ls: Vec<String> = (0..12).map(|i| format!("    // line {}", i)).collect();
    ls[5] = "    mstore(0x20, a)".to_string();
    ls[8] = "    mstore(0x0, b)".to_string();
    assert_eq!(find_boundary(&ls), (Some(5), Some(8)));
    assert_eq!(count_pub_inputs(&ls), 3);
    assert_eq!(max_pub_inputs_addr(3), 64);
    let (t, offs) = rewrite_line("let x := calldataload(0x20)", 3).unwrap();
    assert_eq!(t, "let x := mload(add(pubInputs, 0x40))");
    assert!(offs.is_empty());
    let (t, _) = rewrite_line("let y := calldataload(0x80)", 3).unwrap();
    assert_eq!(t, "let y := mload(add(proof, 0x40))");
    assert_eq!(resolve_calldata(0x20, 3), (Buffer::PubInputs, 0x40));
    assert_eq!(resolve_calldata(0x80, 3), (Buffer::Proof, 0x40));
    assert_eq!(resolve_calldata(0x40, 3), (Buffer::PubInputs, 0x60));
    assert_eq!(resolve_calldata(0x60, 3), (Buffer::Proof, 0x20));
}

#[test]
fn boundary_keeps_last_write_before_close() {
    let ls = lines(&["mstore(0x20, a)", "  mstore(0x20, b)", "x", "\tmstore(0x0, c)", "mstore(0x20, d)"]);
    assert_eq!(find_boundary(&ls), (Some(1), Some(3)));
    assert_eq!(count_pub_inputs(&ls), 2);
    let ls = lines(&["mstore(0x20, a)", "x"]);
    assert_eq!(find_boundary(&ls), (Some(0), None));
    assert_eq!(count_pub_inputs(&ls), 0);
    assert_eq!(max_pub_inputs_addr(0), 0);
}

#[test]
fn byte_store_moves_to_transcript() {
    let (t, offs) = rewrite_line("    mstore8(17, x)", 0).unwrap();
    assert_eq!(t, "    mstore8(add(transcript, 0x11), x)");
    assert_eq!(offs, vec![0x11]);
}

#[test]
fn modexp_call_moves_both_addresses() {
    let (t, offs) = rewrite_line("success := and(success, staticcall(gas(), 0x5, 0xa0, 0xc0, 0xc0, 0x20))", 0).unwrap();
    assert_eq!(t, "success := and(success, staticcall(gas(), 0x5, add(transcript, 0xa0), 0xc0, add(transcript, 0xc0), 0x20))");
    assert_eq!(offs, vec![0xa0, 0xc0]);
}

#[test]
fn curve_calls_move_both_addresses() {
    let (t, offs) = rewrite_line("staticcall(gas(), 0x7, 0x100, 0x60, 0x1A0, 0x40)", 0).unwrap();
    assert_eq!(t, "staticcall(gas(), 0x7, add(transcript, 0x100), 0x60, add(transcript, 0x1a0), 0x40)");
    assert_eq!(offs, vec![0x100, 0x1a0]);
    let (t, offs) = rewrite_line("staticcall(gas(), 0x6, 0x20, 0x80, 0x40, 0x40)", 0).unwrap();
    assert_eq!(t, "staticcall(gas(), 0x6, add(transcript, 0x20), 0x80, add(transcript, 0x40), 0x40)");
    assert_eq!(offs, vec![0x20, 0x40]);
    let (t, offs) = rewrite_line("staticcall(gas(), 0x8, 0x0, 0x180, 0x0, 0x20)", 0).unwrap();
    assert_eq!(t, "staticcall(gas(), 0x8, add(transcript, 0x0), 0x180, add(transcript, 0x0), 0x20)");
    assert_eq!(offs, vec![0, 0]);
    let (t, offs) = rewrite_line("staticcall(gas(), 0x7, 0x100, 0x80, 0x1a0, 0x40)", 0).unwrap();
    assert_eq!(t, "staticcall(gas(), 0x7, 0x100, 0x80, 0x1a0, 0x40)");
    assert!(offs.is_empty());
}

#[test]
fn two_loads_on_one_line() {
    let (t, offs) = rewrite_line("let x := mulmod(mload(0x2a0), mload(0x2c0), f_q)", 0).unwrap();
    assert_eq!(t, "let x := mulmod(mload(add(transcript, 0x2a0)), mload(add(transcript, 0x2c0)), f_q)");
    assert_eq!(offs, vec![0x2a0, 0x2c0]);
}

#[test]
fn repeated_load_rewritten_each_time() {
    let (t, offs) = rewrite_line("add(mload(0x20), mload(0x20))", 0).unwrap();
    assert_eq!(t, "add(mload(add(transcript, 0x20)), mload(add(transcript, 0x20)))");
    assert_eq!(offs, vec![0x20, 0x20]);
}

#[test]
fn loads_sharing_a_prefix_stay_apart() {
    let (t, offs) = rewrite_line("add(mload(0x20), mload(0x200))", 0).unwrap();
    assert_eq!(t, "add(mload(add(transcript, 0x20)), mload(add(transcript, 0x200)))");
    assert_eq!(offs, vec![0x20, 0x200]);
    let (t, offs) = rewrite_line("add(mload(0x200), mload(0x20))", 0).unwrap();
    assert_eq!(t, "add(mload(add(transcript, 0x200)), mload(add(transcript, 0x20)))");
    assert_eq!(offs, vec![0x200, 0x20]);
    let ls = listing(&["        let x := add(mload(0x20), mload(0x200))"], true);
    let out = fix_verifier_sol(&ls).unwrap();
    let expected = format!(
        "{}{}{}{}{}",
        HEAD, 16, MID, "        let x := add(mload(add(transcript, 0x20)), mload(add(transcript, 0x200)))", FOOT
    );
    assert_eq!(out, expected);
}

#[test]
fn only_the_matched_text_is_rewritten() {
    let (t, offs) = rewrite_line("mstore(1, mstore(12, x))", 0).unwrap();
    assert_eq!(t, "mstore(add(transcript, 0x1), mstore(12, x))");
    assert_eq!(offs, vec![1]);
    let (t, offs) = rewrite_line("pop(keccak256(0x4, 0x20)) pop(keccak256(0x40, 0x20))", 0).unwrap();
    assert_eq!(t, "pop(keccak256(add(transcript, 0x4), 0x20)) pop(keccak256(add(transcript, 0x40), 0x20))");
    assert_eq!(offs, vec![4, 0x40]);
    let (t, _) = rewrite_line("f(calldataload(0x0)) g(calldataload(0x0))", 0).unwrap();
    assert_eq!(t, "f(mload(add(proof, 0x0))) g(mload(add(proof, 0x0)))");
}

#[test]
fn every_calldata_read_on_a_line_is_routed() {
    let (t, offs) = rewrite_line("add(calldataload(0x0), calldataload(0x20))", 0).unwrap();
    assert_eq!(t, "add(mload(add(proof, 0x0)), mload(add(proof, 0x20)))");
    assert!(offs.is_empty());
    let (t, _) = rewrite_line("f(calldataload(0x20), calldataload(0x80))", 3).unwrap();
    assert_eq!(t, "f(mload(add(pubInputs, 0x40)), mload(add(proof, 0x40)))");
    let (t, _) = rewrite_line("add(calldataload(0x20), calldataload(0x20))", 3).unwrap();
    assert_eq!(t, "add(mload(add(pubInputs, 0x40)), mload(add(pubInputs, 0x40)))");
    assert_eq!(
        rewrite_line("add(calldataload(0x0), calldataload(0x100000000))", 0),
        Err(TranspileError::MalformedAddress)
    );
    let ls = listing(&["        let x := add(calldataload(0x20), calldataload(0x80))"], true);
    let out = fix_verifier_sol(&ls).unwrap();
    assert!(out.contains("let x := add(mload(add(pubInputs, 0x40)), mload(add(proof, 0x40)))"));
}

#[test]
fn every_precompile_call_on_a_line_is_moved() {
    let (t, offs) = rewrite_line(
        "and(staticcall(gas(), 0x6, 0x20, 0x80, 0x40, 0x40), staticcall(gas(), 0x6, 0x60, 0x80, 0x80, 0x40))",
        0,
    )
    .unwrap();
    assert_eq!(
        t,
        "and(staticcall(gas(), 0x6, add(transcript, 0x20), 0x80, add(transcript, 0x40), 0x40), staticcall(gas(), 0x6, add(transcript, 0x60), 0x80, add(transcript, 0x80), 0x40))"
    );
    assert_eq!(offs, vec![0x20, 0x40, 0x60, 0x80]);
}

#[test]
fn decimal_and_hex_stores_agree() {
    let (a, oa) = rewrite_line("mstore(17, x)", 0).unwrap();
    let (b, ob) = rewrite_line("mstore(0x11, x)", 0).unwrap();
    assert_eq!(a, "mstore(add(transcript, 0x11), x)");
    assert_eq!(a, b);
    assert_eq!(oa, ob);
    assert_eq!(oa, vec![17]);
}

#[test]
fn keccak_moves_to_transcript() {
    let (t, offs) = rewrite_line("mstore(0x0, keccak256(0x00, 0x180))", 0).unwrap();
    assert_eq!(t, "mstore(add(transcript, 0x0), keccak256(add(transcript, 0x0), 0x180))");
    assert_eq!(offs, vec![0, 0]);
}

#[test]
fn bool_marks_are_dropped() {
    let (t, offs) = rewrite_line("let ok:bool := 1:bool", 0).unwrap();
    assert_eq!(t, "let ok := 1");
    assert!(offs.is_empty());
}

#[test]
fn store_without_closing_paren_is_left() {
    let (t, offs) = rewrite_line("mstore(12, ", 0).unwrap();
    assert_eq!(t, "mstore(12, ");
    assert!(offs.is_empty());
}

#[test]
fn oversized_address_is_malformed() {
    assert_eq!(rewrite_line("mstore8(4294967296, x)", 0), Err(TranspileError::MalformedAddress));
    assert_eq!(rewrite_line("let a := calldataload(0x100000000)", 0), Err(TranspileError::MalformedAddress));
    assert_eq!(rewrite_line("mload(0xffffffff1)", 0), Err(TranspileError::MalformedAddress));
    let (t, offs) = rewrite_line("mstore(4294967295, x)", 0).unwrap();
    assert_eq!(t, "mstore(add(transcript, 0xffffffff), x)");
    assert_eq!(offs, vec![u32::MAX]);
    let ls = listing(&["        mstore8(99999999999, x)"], true);
    assert_eq!(fix_verifier_sol(&ls), Err(TranspileError::MalformedAddress));
}

#[test]
fn listing_without_transcript_fails() {
    let ls = listing(&["        let a := 1"], false);
    assert_eq!(fix_verifier_sol(&ls), Err(TranspileError::EmptyTranscript));
}

#[test]
fn short_listing_fails() {
    let ls = lines(&["mstore(0x20, 1)", "mload(0x40)"]);
    assert_eq!(fix_verifier_sol(&ls), Err(TranspileError::MissingBoilerplate));
}

#[test]
fn buffer_words_from_largest_address() {
    assert_eq!(buffer_word_count(&vec![17, 0x40, 0x20]), Some(2));
    assert_eq!(buffer_word_count(&vec![0x11]), Some(0));
    assert_eq!(buffer_word_count(&vec![0x2c0, 0x2a0]), Some(22));
    assert_eq!(buffer_word_count(&vec![]), None);
}

#[test]
fn lines_split_like_bufread() {
    assert_eq!(split_lines("a\r\nb\n\nc\n"), lines(&["a", "b", "", "c"]));
    assert_eq!(split_lines(""), Vec::<String>::new());
    assert_eq!(split_lines("x"), lines(&["x"]));
    assert_eq!(split_lines("\n"), lines(&[""]));
    assert_eq!(split_lines("a\rb"), lines(&["a\rb"]));
    assert_eq!(split_lines("a\r\nb\r"), lines(&["a", "b\r"]));
}
