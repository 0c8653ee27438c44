# tigersetup_engine

The decisions of a Windows installation engine, verified with Verus.

A run of the engine reads what the package declares, what the state database
records and what the machine holds, and decides what is to be done: which
operations in which order, which applications are closed and started again,
which dependency is acquired and how, what is owned afterwards, and what is
reported. All of that is in `src/`, as functions from plain values to plain
values with contracts. Doing it is not: files, the registry, processes, the
database and the network are touched by the code in `app/` and by the host it
runs on.

Where a decision alternates with outside work, it is a step function: it is
given what came of the run so far and says what comes next.

| Module | What it decides |
| --- | --- |
| `text`, `lists`, `packed`, `paths` | texts, lists, packed records and what paths are made of, for the others |
| `machine` | what the machine holds, as values |
| `metadata`, `identity` | what a package declares; names, places and versions |
| `scope`, `acl` | what a scope may touch, and who may touch its state |
| `resource` | the shape of each kind of resource and when it reads as wanted |
| `plan` | desired, owned and actual state become ordered operations |
| `state` | the journal, ownership, commits and schema of the state database |
| `action` | custom actions: storing, selecting, launching and judging them |
| `quiescence`, `restart` | stopping and closing applications, and resuming them |
| `dependency` | detecting, acquiring and installing what a product needs |
| `elevation`, `legacy`, `launch` | relaunching, replaced products, starting the product |
| `report`, `i18n`, `error` | documents, exit codes, times and human text |
| `engine` | the intents: install, repair, uninstall, verify, inspect |

What holds of the library as a whole stands in public `lemma_` functions beside
the definitions it is about; `plan::laws`, `plan::settled`,
`resource::confinement` and `dependency::anchors` hold nothing else.
