# mlgraph

A bandwidth-aware computation graph optimizer for ML inference, written in
Verus. It models transformer computation graphs, estimates the HBM traffic
and floating-point work of every node, and fuses attention and FFN blocks
into single kernels, with every shape rule, cost formula, graph mutation and
fusion step carrying a machine-checked contract.

## Layout

- `src/` — the verified library
  - `dtype`, `scalar`, `arith`, `text`, `error`: element types, single-precision
    attributes held by their encoding, saturating arithmetic, diagnostic text
  - `op`: operations with their shape rules (`shape`), FLOP counts (`flops`)
    and HBM traffic (`hbm`)
  - `graph`: the graph, its model `GraphView`, construction and mutation
    (`builder`), and topological ordering (`topo`)
  - `analysis::bandwidth`: per-node and total traffic reports
  - `fusion`: attention-block and FFN-block fusion passes
  - `models::vit`: the ViT graph builder
  - `mcts`: rollout dispatch for Monte-Carlo tree search
- `tests/` — tests run against the compiled library
- `app/` — formatting that needs floating point or `Display`: the report
  table, arithmetic intensity, error and id display, and the ViT builder's
  attention scale

Verify the library by running `verus` on `src/lib.rs`.
