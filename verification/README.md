# fspy

The verified core of fspy, a file-system access tracer for Linux (with
parts for macOS and Windows). The functions in `src/` carry contracts that
Verus proves; the calls into outside crates (`object`, `iced-x86`,
`base64`, `uuid`, `seccompiler`) stand behind small trusted wrappers whose
contracts are believed, each with a doc comment saying what it claims.

- `seccomp`: the user-notification seccomp filter that lets the allowed
  gate through (with a model of the BPF machine it runs on), the
  supervisor's filter (seccompiler's program, each trace verdict replaced
  by a notification), and the supervisor's per-target decisions.
- `channel`: the crash-tolerant shared-memory frame channel the traced
  processes report through, its gate word, and the gated variant.
- `ipc`: access records and platform-native strings.
- `exec`, `spawn`, `spawn_args`, `payload`: the environment a traced
  `exec` gets, the payload carried in it, and the checks on a terminal
  child's arguments.
- `intercept`: startup patching of raw syscall instructions: reading the
  ELF file, finding the sites, choosing the ones that are safe to rewrite,
  encoding branches and trampolines, and the allowed gate's page.
- `shm`, `windows_shm`, `artifact`: shared-memory names (macOS) and
  identifiers (Windows), and materialized helper files.

`app/` is the unverified process-facing side: reading the loader's map and
the ELF files, `mmap`/`mprotect`, the dispatch entry's machine code, the
seccomp notify socket and loop, and the wire form of the payload.
