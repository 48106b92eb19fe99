# stoat_client

The logic of a desktop chat client for Stoat, verified with Verus.

`src/` holds the library. Each module is a part of the client's behaviour,
stated in contracts over mathematical models and proved:

- `color`: CSS-like fills (named, hex and `rgb()` colours, linear gradients).
- `markdown`: splitting message text into words, custom emojis and channel
  mentions.
- `timeline`: the window of loaded messages of a channel, its paging, live
  updates and the loads that fill it.
- `grouping`: which messages start a group under a shared header.
- `replies`, `attachments`, `reactions`: the parts of a draft and of a sent
  message that the reader edits.
- `members`, `sidebar`, `names`, `messages`: what the member list, the
  sidebars and the messages show, and in which order.
- `emoji`, `invite`, `modal`, `home`, `connection`, `login`,
  `server_settings`: the smaller screens and their state.
- `press`: which presses of a button reach its handler.
- `order`, `text`: orders on text, stable sorting, and text helpers.

`app/` holds what cannot be verified: the floating-point geometry of
gradients, the reader's clock and time zone, and the file prompt.
