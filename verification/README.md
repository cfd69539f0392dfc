# downloader

A terminal download manager. It fetches a file in a few pieces at once,
joins them, and names the result after what the server or the URL says. It
can also wait for download requests from a browser extension.

- `src/` is the verified library:
  - `interaction`: the prompt's line editor, the list of download messages,
    and how a download is named on screen;
  - `rendering`: whether and how often the screen is drawn;
  - `downloading`: how a file is split into pieces, the `Range` header and
    part file of each piece, and the names given to a download;
  - `monitor`: the packets of the browser extension and the settings of
    monitor mode;
  - `text`: character and string helpers (whitespace, search, trimming,
    decimal numbers).
- `app/` is the program around it: the terminal, the network, the files and
  the clipboard.
- `tests/` runs the library on concrete values.
