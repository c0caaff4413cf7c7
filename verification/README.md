# apk-mitm

Prepares Android apps for HTTPS inspection: a package, a bundle of packages or a directory that
Apktool decoded goes in, a package with a lax network security configuration comes out beside it.

- `src/` is the library, verified with Verus: reading Smali heads, replacing the methods that pin
  certificates, changing the manifest, writing the network security configuration, the arguments of
  the Java programs, and the order of the steps of a run.
- `app/` is the command line program around it: arguments, files, processes and the network.
- `tests/` holds the tests of the library.

The library calls the `regex` crate for its searches. What is believed of those calls stands in
`src/pattern.rs`, what is believed of `std` in `src/text.rs`; everything else is proved.
