# ssm-moe

A mixture-of-experts inference engine over a pool of language models, with an
OpenAI-compatible HTTP endpoint.

A turn scores the prompt against the pool, selects experts by the entropy of the
scores, has each of them answer, fuses the answers and lets a critic judge the
result; what the critic refuses is routed again, a limited number of times.

- `src/` is the library, written in Verus: prompt decomposition, expert selection,
  the preset file and command line of the expert server, generation, the
  three-tier registry, fusion, the critic's rules, linear-head files, context
  memory, the chat surface and the turn itself. Numbers in single precision are
  held as their bit patterns.
- `app/` is the program around it: HTTP, processes, files, models, and the
  floating-point arithmetic.
- `tests/` runs the library on concrete values.
