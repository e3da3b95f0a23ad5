# CryoLock

A Wayland session locker with a verified core.

- `src/` is the library, verified with Verus: the configuration, the course of
  an authentication attempt, the idle timer, the reaction to keys and outputs,
  the composition of a frame and the blending of text.
- `app/` is the program around it: Wayland, PAM, files, fonts, the clock on the
  wall and the drawing of curves.
- `tests/` holds the library's tests.

| Module       | What it holds                                                     |
|--------------|-------------------------------------------------------------------|
| `app`        | the session: keys, authentication results, outputs, surfaces      |
| `auth`       | messages to and from the auth thread, and a single attempt        |
| `config`     | settings and their defaults, colours, the loading of the file     |
| `dpms`       | when the monitors are powered off and on                          |
| `font`       | where a font is looked for                                        |
| `pixels`     | contracts of `tiny_skia`'s pixmap, blending, byte order           |
| `render`     | what a frame shows in which state, and the drawing of text        |
| `secret`     | wiping of passwords                                               |
| `text`       | character classes and trimming                                    |

The library decides and the program acts: each event is handed to a method of
`app::CryoLock`, which updates the session and returns what is to be done.
