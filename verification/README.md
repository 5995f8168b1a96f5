# lazyscript

A terminal program that lists the scripts of one or more directories and runs
them. Scripts come from `package.json` (run by npm, pnpm or yarn) and from
`scripts.json` (run by the user's shell); commands can also be typed and run on
the spot. Scripts are added and changed in place, the list can be filtered and
folded up, and text can be copied from the output of a process.

- `src/` is the library: all rules of the program, written in Verus with proved
  contracts. It does no input or output of its own.
- `app/` is the program around it: arguments, files, pseudo terminals, threads
  and drawing.
- `tests/` runs the library on given values.

## Keys

| Where | Keys |
| --- | --- |
| list | `j`/`k` move, `h`/`l` up to the heading and down to the first row, `Enter`/`Space` fold, run or stop, `a` add, `e` edit, `!` run a command, `/` filter, `v` copy, `za`/`zo`/`zc` fold, `q` quit |
| copying | `hjkl`, `w`/`b`/`e`, `0`/`^`/`$`, `gg`/`G`, `Ctrl-U/D/F/B`, `v`/`V`/`Ctrl-V` select, `o` other end, `/`/`?` search, `n`/`N` next, `y`/`Enter` copy, `Esc` clear, `q` leave |
| dialogs | `Tab` change the field, `Enter` next or save, `Esc` cancel |
| anywhere | `Ctrl-C` quit |

## Settings

`$XDG_CONFIG_HOME/lazyscript/setting.json`, or `~/.config/lazyscript/setting.json`:
`theme.cursor`, `theme.search`, `theme.running`, `theme.failed`, `theme.focus`,
`theme.selection` (a name, `#rrggbb`, or a number from 0 to 255), `clipboard`
(`system`, `osc52` or `both`) and `scrollback` (lines kept of each process).
