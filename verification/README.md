# claudeth

An Ethereum execution layer written in Verus: a 256-bit word type, RLP,
Keccak-256, SHA-256, RIPEMD-160, secp256k1 helpers, the EVM gas schedule, stack,
memory, every opcode, the precompiles and the interpreter loop. Each public
function states in `requires`/`ensures` what it does, over mathematical views
(`Seq`, `Map`, `nat`), and Verus proves the code against it.

## Layout

- `src/types.rs`: `U256` (viewed as a `nat` below 2^256), `U512`, `Address`, `Hash`.
- `src/state.rs`: the `State` trait (balances, nonces, code, storage, transient
  storage, each viewed as a `Map`) and `InMemoryState`, built on `AssocList`, an
  association list whose keys occur once.
- `src/crypto/`: Keccak-256, SHA-256, RIPEMD-160, RLP encoding and decoding,
  secp256k1 field arithmetic and point operations, and signature recovery.
- `src/evm/`: stack, memory, gas schedule, opcode semantics (`opcodes/`), the
  host interface for nested calls and creations, precompiles, the disassembler,
  gas traces and the interpreter (`Evm::step`, `Evm::run`, `execute_bytecode*`).
- `tests/`: ordinary Rust tests of the compiled library.
- `app/`: the host that runs nested frames on fresh machines (the library plans
  and finishes each frame; running a machine inside its own host's impl is a
  cycle that Verus does not follow) and the printing of gas traces.

## What is proved and what is trusted

- `execute_opcode` states, for each opcode, the stack, memory, state, gas,
  refund, return data and warm sets after it (`opcode_effect`); `Evm::step`
  follows it (`steps_to`), `Evm::run` repeats steps until the machine halts or a
  step fails (`runs_to`), and each `execute_bytecode*` entry point is a run of a
  fresh machine (`executes`).
- Calls, creations and block and blob hashes go through the `Host` trait. Each of
  its methods answers as the host's own spec functions (`answers_call`,
  `answers_create`, `answers_blockhash`, ...) say, which a host with nothing to
  state leaves true; the contracts say what message the host is handed and what
  its answer does to the caller (`call_via`, `create_via`). `RecursiveHost`
  plans each nested frame (`plan_call`, `plan_create`: same block and
  transaction contexts, a host one frame deeper) and applies its outcome
  (`finish_call`, `finish_create`).
- The only outside crate is `k256`. Three trusted wrappers in
  `src/crypto/secp256k1.rs` call it (public key recovery, SEC1 key parsing,
  prehash signature verification); their results are named by uninterpreted
  spec functions, and everything around them is verified.
- Laws that span functions are public proof functions next to the code they
  speak of (for instance `lemma_decode_encode_*` in RLP, `lemma_pop_undoes_push`
  for the stack, `lemma_load_after_store` for memory, `lemma_read_own_write` for
  state, `lemma_reaches_extend` for the interpreter).
