# cloakroom

Context-dependent Git identities compiled to native Git conditional includes.

`src/` is the library. Everything cloakroom decides stands there with a
contract that Verus proves: what a configuration must be, what it compiles to,
in which order the files are published, what git's answers mean, what the
reports say and how a run ends. Paths are Unix paths throughout. `app/` is the program around it: it reads the
command line and the environment, runs git, touches the file system and prints.

| Module                                   | What it holds                                                          |
| ---------------------------------------- | ---------------------------------------------------------------------- |
| `cli`                                    | The command line.                                                      |
| `config`, `profiles`                     | The configuration and its validation.                                  |
| `render`                                 | The gitconfig text that a configuration compiles to.                   |
| `paths`, `file_path`                     | Where the files live; paths as bytes.                                  |
| `publication`, `file_io`                 | Which files are written or removed, and in which order.                |
| `git`, `identity`                        | What git is asked and what its answers mean.                           |
| `status`, `doctor`, `diagnosis`          | The reports, and what holds of every report of `doctor`.               |
| `app`, `turn`, `run_status`              | The turns of a run: what is printed, what is asked for, how it ends.   |
| `conduct`, `runs`                        | What holds of every turn, and of whole runs of `init`.                 |
| `text`, `number`, `order`, `sorted_map`  | Text, numbers, the order of strings, and maps in that order.           |

A run is a sequence of turns. `app::Session::run` gives the first one; the
program prints its lines, performs its action, and hands what came of it to
`app::Session::next`, until the action is to finish.

The public proof functions whose names start with `law_` state what the parts
promise together: for instance that git can follow the generated root at every
moment of a publication, that a publication that fails leaves the previous root
in place, that once `init` has ended clean a second run of it changes nothing
as long as nothing else does, that every issue line of `doctor` names a command,
and that `status` and `doctor` only read.

What Verus takes on trust is marked `external_body` or `assume_specification`,
with a comment that says what is believed of which function.
