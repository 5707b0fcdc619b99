# csv_rs

A library for Hygon's secure virtualization (CSV) and its DCU accelerators, written in Verus:
executable Rust whose behaviour is stated in contracts and proved.

- `src/text.rs`, `src/number.rs`: lines, words and numbers in texts.
- `src/error.rs`: what the library reports when it fails.
- `src/api/dcu/`: PCI addresses and sets of them, the KFD topology and its scan, the output of
  `hyflash` and what it shows, the query over the installed tools, the collection of attestation
  reports, their verification and the files of the certificates.
- `src/api/guest/`: the answers about the measurement registers, and the exchange that ends with
  an attestation report.
- `src/api/launch/`: the arguments of the requests that launch a guest.
- `tests/`: the library on concrete values.
- `app/`: files, processes and devices around the library. The layouts of the kernel's requests
  and of the certificates are brought by impls of its traits.

What depends on files, processes or a device is a state machine in the library: it says what to
do next, and takes what came of it. For the scan, the query, the collection, the verification and
the exchange a proved law says what a whole run comes to.
