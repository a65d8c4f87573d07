use claudeth::evm::trace::{opcode_name, GasTrace, GasTraceEntry, GasTracer};

#[test]
fn test_gas_tracer_basic() {
    let mut tracer = GasTracer::new(1000);

    tracer.trace(0, 0x60, "PUSH1", 1000, 3, 997);
    tracer.trace(2, 0x60, "PUSH1", 997, 3, 994);
    tracer.trace(4, 0x01, "ADD", 994, 3, 991);
    tracer.trace(5, 0x00, "STOP", 991, 0, 991);

    assert_eq!(tracer.entries().len(), 4);
    assert_eq!(tracer.total_gas_used(), 9);

    let first = &tracer.entries()[0];
    assert_eq!(first.pc, 0);
    assert_eq!(first.opcode, 0x60);
    assert_eq!(first.name, "PUSH1");
    assert_eq!(first.gas_before, 1000);
    assert_eq!(first.gas_cost, 3);
    assert_eq!(first.gas_after, 997);
    assert_eq!(first.cumulative_gas, 3);
}

#[test]
fn test_opcode_names() {
    assert_eq!(opcode_name(0x00), "STOP");
    assert_eq!(opcode_name(0x01), "ADD");
    assert_eq!(opcode_name(0x60), "PUSH1");
    assert_eq!(opcode_name(0x7f), "PUSH32");
    assert_eq!(opcode_name(0xf1), "CALL");
    assert_eq!(opcode_name(0xff), "SELFDESTRUCT");
    assert_eq!(opcode_name(0x99), "SWAP10");
    assert_eq!(opcode_name(0xef), "UNKNOWN");
}

#[test]
fn test_gas_tracer_format() {
    let mut tracer = GasTracer::new(100);
    tracer.trace(0, 0x60, "PUSH1", 100, 3, 97);
    tracer.trace(2, 0x01, "ADD", 97, 3, 94);

    let output = tracer.format();
    assert!(output.contains("Gas Trace"));
    assert!(output.contains("PUSH1"));
    assert!(output.contains("ADD"));
    assert!(output.contains("100"));
    assert!(output.contains("6"));
}

fn expected_format(initial: u64, entries: &[GasTraceEntry], used: u64) -> String {
    let mut out = String::new();
    out.push_str(&format!("Gas Trace (initial: {}, used: {})\n", initial, used));
    out.push_str(&format!(
        "{:>6} {:>12} {:>10} {:>10} {:>10} {:>12}\n",
        "PC", "Opcode", "Before", "Cost", "After", "Cumulative"
    ));
    out.push_str(&format!("{}\n", "-".repeat(70)));
    for e in entries {
        out.push_str(&format!(
            "{:06x} {:12} {:10} {:10} {:10} {:12}\n",
            e.pc,
            format!("{} (0x{:02x})", e.name, e.opcode),
            e.gas_before,
            e.gas_cost,
            e.gas_after,
            e.cumulative_gas
        ));
    }
    out
}

#[test]
fn tracer_format_matches_column_layout() {
    let mut tracer = GasTracer::new(100000);
    tracer.trace(0, 0x60, "PUSH1", 100000, 3, 99997);
    tracer.trace(0x1234, 0xf1, "DELEGATECALL", 99997, 2600, 97397);
    tracer.trace(0x1235, 0x00, "STOP", 97397, 0, 97397);
    let expected = expected_format(100000, tracer.entries(), 2603);
    assert_eq!(tracer.format(), expected);
    assert!(tracer.format().contains("001234 DELEGATECALL (0xf1)      99997       2600      97397         2603\n"));
}

#[test]
fn empty_tracer_reports_no_gas_used() {
    let tracer = GasTracer::new(500);
    assert_eq!(tracer.total_gas_used(), 0);
    assert_eq!(tracer.entries().len(), 0);
    assert_eq!(tracer.format(), expected_format(500, &[], 0));
}

#[test]
fn snapshot_formats_like_the_tracer() {
    let mut tracer = GasTracer::new(50);
    tracer.trace(7, 0x01, "ADD", 50, 3, 47);
    let snap: GasTrace = tracer.snapshot();
    assert_eq!(snap.initial_gas, 50);
    assert_eq!(snap.entries.len(), 1);
    assert_eq!(snap.entries[0].cumulative_gas, 3);
    assert_eq!(snap.format(), tracer.format());
    assert!(snap.format().starts_with("Gas Trace (initial: 50, used: 3)\n"));
}

#[test]
fn default_tracer_is_empty() {
    let tracer = GasTracer::default();
    assert_eq!(tracer.total_gas_used(), 0);
    assert!(tracer.entries().is_empty());
}
