# dotprot

Locks `.env` files, and whatever else a project lists, into a dedicated
1Password vault, and restores them on demand. A local file is deleted only after
a verified, recorded copy of it exists in the vault.

## Layout

- `src/` is the library, verified with Verus. A command is a `commands::Run`: it
  asks for one thing at a time, is given the reply, and goes on. What it does is
  stated in `commands::model`, and what holds of whole runs is proved in `laws`.
- `app/` is the program: the command line, the files, the terminal, and the `op`
  program.
- `tests/` runs the library against a vault and a disk kept in memory.

## What is proved

- Reading a `.prot` file gives back what was written into it
  (`laws::round_trip`), and writing it is all or nothing (`laws::writing`).
- A file is deleted only after it was stored, read back as the same bytes,
  recorded, and read once more as the same bytes, and it stays recorded in
  everything that is written into `.prot` afterwards; documents are stored in and
  fetched from the vault named `.prot` alone; only files that a pattern of
  `.prot` matched, with plain paths below the working directory, are touched; a
  success leaves no file out (`laws::locking`).
- Files in different places, whether in one directory or in two, have documents
  with different titles (`laws::titles`).
- Files are restored below the working directory alone, through no directory that
  was found to be a link, where nothing was, with the bytes of the recorded
  document; what locking writes into `.prot` is taken up by unlocking
  (`laws::unlocking`).
- Projects in different places have their backups in different places, on
  different drives and shares too, and the directory of a drive or share can be
  made (`laws::backups`).
- Nothing is touched before someone is signed in, and the first failure ends a
  run (`laws::runs`).

What is called and not proved stands in `outside`, and in `text` for
`String::push`.

## Linked directories

Patterns are matched through linked directories, so a file behind one is locked
and deleted like any other. Unlocking writes through no link: such a file is
restored once the link is replaced by a plain directory.
