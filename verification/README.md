# browser_consent_ui

Chromium asks the person at the screen before it lets a driver attach for remote
debugging. This library finds that prompt in the accessibility tree of an
approved browser window and decides which of its buttons grants the request, or
why none may be pressed. It is verified with Verus.

- `text`: trimming and comparing text, decimal numbers.
- `node`: the rows of a walked tree.
- `refusal`: why a request was refused.
- `surface`: which rows are the browser's own, and where its prompts stand.
- `buttons`: which of three buttons grants, by where they stand and which has the
  focus.
- `actions`: the button of each prompt in a tree.
- `independence`: neither language, layout direction nor page content matters.
- `native`: native windows of the target, and how they stack.
- `owned`: choosing between prompts by their windows.
- `target`: the button of a target window, and which trees are released.
- `session`: one attempt, from the first look to its end.
- `look`: one look at the target window, and what an attempt makes of it.
- `console`: how helper programs are started.

`app/` talks to Windows, to live elements and to child processes.
