# sf

Shares text and files between a phone and a computer in the same network. One side runs a
small web server and shows its URL as a QR code; the other side scans it.

```
sf "message"        the phone that scans the code gets the text in its clipboard
sf /path/to/file    the phone that scans the code downloads the file
sf get              the phone that scans the code sends a text or a file to the computer
```

On Linux `sf` is a command-line tool; on Windows and Android the same server runs inside a
window.

## Layout

- `src/` is the library, verified with Verus: everything that is decided or computed.
  - `text` string operations; `escape` HTML escaping; `base64_text` base64
  - `names` file names and the search for a free one; `disposition` the download header
  - `network` the own address and the URL; `clipboard` clipboard tools
  - `qr` QR codes; `mask` the choice of their mask
  - `pages` and `upload` the pages for the phone and the reception of its uploads
  - `cli` the command-line tool; `server` the desktop and mobile server; `content_uri`
    files on Android
- `app/` is the program around it: sockets, files, processes, the Android resolver and the
  window.
- `tests/` holds the tests of the library.

Most modules end with the properties that hold of them as a whole, as proof functions: that
an escaped text reads back as it was, that the name of a received file leads to no other
directory and is one that nothing has, that a text goes to one clipboard tool after the
other up to the first that takes it, that a form is answered once, that the old server is
stopped before a new one starts and at most one runs.
