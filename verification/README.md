# mistralrs_leech

Readers for two quantized weight containers, and the host-side logic of the
layers that use them.

- `leech`: the `.leech` container (LLVQ blocks, fp8 and bf16 passthrough
  tensors, overlays).
- `leech_q24`: the LEECHQ24 container (13-bit buckets, four-codebook tANS,
  versions 3 and 4).
- `quant`: layer checks, launch plans and index arrays for the CUDA kernels.

The library under `src/` is written in Verus: every function states what it
returns, including each error and the inputs it comes on. Records, payloads,
overlays, codebooks and whole files are shown to come back as they were
written, and so are packed buckets with their sentinels.

`app/` maps files into memory, parses the manifest with serde, gives errors
their texts, and launches the kernels. Call the library's functions with their
`requires` in mind; `app/` shows the checks.
