# apex

Acme, remade: a text editor and shell whose sessions live in a daemon.  `apex`
is the command that works on a session; `apex-ui` is the window on one.

The decisions of both are a library in Verus.  An event comes in as plain
values (a press, a key, a frame off the wire, a line of a file); what is to be
done about it comes back as a value too, and its contract says which.

- `src/` is the library.
  - The mouse and the keys: `mouse`, `drag`, `release`, `textkeys`, `exec`,
    `words`, `lines`, `scroll`, `field`.
  - What is drawn and where: `layout`, `rows`, `frame`, `term`, `handle`,
    `theme`, `contrast`, `ends`, `cursor`, `menu`, `menus`, `warp`.
  - Sessions and tabs: `session`, `pool`, `parking`, `switcher`, `tabs`,
    `picker`, `selector`, `attention`, `link`, `going`, `opening`, `launch`.
  - What is remembered: `hosts`, `recall`, `recent`, `tabbed`.
  - The finder: `finder`, `fuzzy`.
  - The command line: `argv`, `flags`, `dispatch`, `cli`, `commands`, `rules`,
    `plane`, `table`, `markdown`.
  - What a session asks of the window: `asks`, `errands`, `page`.
  - `text`, `num`, `fixed`, `keys` and `ids` are under all of them.
- `tests/` runs the library on values.
- `app/` is the program around it: the windows, the pages, the links and the
  files.

Lengths on the screen are whole numbers, in parts of a pixel (`mouse::SUB`) or
of a turn of the wheel (`scroll::LINE`).  What is taken on trust of Markdown's
parser and of Unicode's classes is stated at the functions that call them, in
`markdown`, `text` and `flags`.
