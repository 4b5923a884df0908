# miden_kit

Verified building blocks of a zero-knowledge virtual machine, written in Verus.

## Layout

- `src/` — the verified library.
  - `field`, `blakeg`, `eidos`, `chiplet_blakeg`: Goldilocks field elements, the BlakeG
    compression, the Eidos hash framing (felt, byte, raw-word and packed modes) and the VM's
    12-element BlakeG stack window.
  - `blakeg_layout`, `blakeg_fused`, `blakeg_footer`, `blakeg_trace`, `blakeg_felt_trace`,
    `blakeg_views`, `blakeg_lookup`, `blakeg_messages`: the 32-row BlakeG compression cycle —
    column layout, the 28 fused G rows and 4 footer rows, trace generation over raw words and
    over the field, typed row views, the lookup plan and the lookup messages.
  - `columns`, `constraint_builder`, `chiplet_selectors`: trace column groups, constraint
    evaluation on concrete rows and the chiplet selector constraints.
  - `execution`, `events`, `debug_format`, `debug_printer`: execution-state identifiers, the
    event-handler context, the VM's tree-style debug text and the text of each print-debugging
    event.
  - `abstract_interp`, `advice`, `signature_mismatch`, `span`: the MASM analyses — a
    join-semilattice fixpoint iteration, the unconstrained-advice transfer over expressions,
    intrinsics, calls and path joins with its memory-address check, declared-versus-inferred
    stack signatures, and the layout and lint records these analyses report with
    (`lookup_validation`, `lint`).
- `tests/` — executable tests of the library.
- `app/` — host glue that Verus does not see: the `p3_symmetric::CryptographicHasher`
  entry points, debug printers and the print-debugging event handler writing to a
  `fmt::Write` sink (standard output among them), and `thiserror` copies of the errors.

Every function in `src/` that computes a result carries a contract proved by Verus; the laws the library promises
(for example, that the 28 fused rows compute the BlakeG compression, that the internal
lookup buses of a cycle balance, that retagging a block yields the block of the new cycle)
are public proof functions next to the code they describe.
