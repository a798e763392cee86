# spa_bench

A library of threshold password-authentication protocols with machine-checked contracts, and the
programs that measure them.

| Scheme | What it is | Modules |
|---|---|---|
| PAS-TA-U | Ristretto password function, threshold BLS tokens | `pastau*`, `crypto_pastau`, `modern_agent` |
| PAS-TA-U over RSA | password function in a 2048-bit group, Shoup's threshold RSA | `paper_*`, `shoup*`, `modp_*`, `ssh_agent` |
| AugSSO | pairing-based single sign-on with password update | `augsso*`, `crypto_augsso` |
| UpSPA, quorum variant | storage providers with quorum writes and recovery | `upspa_*`, `provider`, `quorum*` |

Shared by all: random streams (`rng`), hashes and ciphers (`hash`, `aead`, `keys`), groups and
sharing (`ristretto`, `bls`, `field`, `group`, `interpolation`), the network model (`netsim`,
`net_phases`), statistics (`stats`, `sampling`), and the command line (`unified*`, `engine*`,
`ops_law`, `cli`).

`src/` is the library. Every function states what it returns and changes; the proofs are checked by
Verus. Calls into cryptographic crates stand behind small functions whose contracts say what is
believed of them. `app/` holds the programs: clocks, files, sockets and floating-point arithmetic.
`tests/` runs the library with the real crates.

The programs are `bench_unified` (the default), `bench_modern`, `bench_modern_tcp`, `bench_paper`,
`bench_paper_tcp` and `pastau_ssh_agent`; the first argument, or the name of the executable, chooses
one.
