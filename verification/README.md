# desktop_switcher

Changes which input a monitor is showing, over DDC/CI, from the command line, a
hotkey, a tray menu or a settings window. The vocabulary is monitors and inputs:
what is plugged into an input is for the person using it to know.

The library under `src/` holds the rules, written in Verus and proved against
their contracts:

- identity and binding: `types`, `edid`, `inventory`, `lookup`;
- what monitors and tools say: `mccs`, `ddcutil_parse`, `powertoys_parse`,
  `topology`, `edid_source`;
- backends: `backend`, `ddcutil`, `powertoys`, `windows`, each with what runs it
  in `ddcutil_live`, `powertoys_live` and `windows_live`, `fake`, `proc`,
  `runner`, `tries`;
- switching: `switch`, `commands`, `survey`, `actions`, `eventlog`;
- configuration: `config`, `legacy`, `document`, `setup`, `interview`,
  `prompt`, `paths`;
- what is said: `page`, `doctor`, `listing`, `notice`, `shared`;
- the desktop: `desktop`, `desk`, `arrange`, `window`, `layers`, `keyed`;
- what reaches the system, each with a record of what it was asked: `console`,
  `port`, `desktop_live`, `hands`, `terminal`, `clock`;
- tray, settings window and icon: `menu`, `hotkey`, `desktop_entry`, `editor`,
  `icon`, `png`, `resource`;
- shared ground: `text`, `digits`, `seqs`.

`tests/` runs the library, `app/` holds the programs around it: processes,
files, the display APIs of the system and the windows. The settings window needs
`eframe` and is built with the `gui` feature.
