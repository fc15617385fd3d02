# borneo

The decisions of a Java build tool, with what they decide stated and proved.

`src/` is a library that Verus verifies. It reads manifests (`borneo.kdl`) and lock files
(`borneo.lock`), decides which version of each artifact a project needs and which repository it
comes from, puts POMs together, judges checksums, and says what is run to compile, pack and test a
project. It reads and writes no files and sends no requests.

- `types` names artifacts: groups, coordinates, types, exclusion patterns.
- `document`, `manifest` and `manifest::lock` read and write KDL.
- `maven::xml`, `maven::template`, `maven::pom` and `maven::assembly` turn XML into POMs.
- `maven::loader` and `maven::search` decide what is loaded, and from where.
- `project`, `project::scopes` and `project::locking` plan builds, tests and downloads.
- `java` and `java::jar` write command lines and lay out archives.
- `status` keeps what the user sees of the work.
- `text`, `paths` and `order` are what the others are made of.

`app/` is the program around the library: the command line, the network, the disk and the
terminal. `tests/` runs the library from outside.

Calls into other crates stand behind small functions whose contracts are trusted: KDL, XML,
regular expressions, globs, hexadecimal and digests. Each says in its documentation what it claims.
