# fuseshadow

A FUSE filesystem that mounts a source directory at another place under a layered access
policy, so that an agent can work on the sources without seeing the secrets among them.

What is done with a path, highest first:

| Path                                   | Inside the mount                               |
| -------------------------------------- | ---------------------------------------------- |
| `.shadowconfig`                        | does not exist                                 |
| matched by an `[ignore]` pattern       | does not exist                                 |
| gitignored, matched by `[writable]`    | lives in a temporary overlay                   |
| gitignored                             | is listed without permissions, cannot be opened |
| `.gitignore`                           | can be read                                    |
| anything else                          | is read and written in the source tree         |

`[[gitignore_drop]]` in the `.shadowconfig` at the source root takes lines out of a
`.gitignore` file. A directory that is renamed inside the mount stays under the rules of
its original name, and what it holds under those of the names from before all renames; the
renames are recorded in that `.shadowconfig`.

`src/` is the library: the rules and every decision of the mount, with contracts that
Verus proves. `app/` is the program around it: arguments, files, system calls and FUSE.
`tests/` runs the library.
