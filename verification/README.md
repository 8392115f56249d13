# rustyDLP

A desktop window around yt-dlp: downloads with presets, a library of what was
fetched, playback, previews and conversions.

The rules of the program are a library, `src/`, whose functions carry contracts
that Verus proves. Around it stands the program itself, `app/`: the window, the
threads, the processes, the database connection and everything that is computed in
floating point.

## The library

| Modules | What they hold |
| --- | --- |
| `text`, `paths`, `readout` | texts, file names, and numbers as they are shown |
| `ytdlp`, `runner`, `media` | the command lines of yt-dlp, ffmpeg and ffprobe, and what they report |
| `model`, `store`, `tables` | jobs, presets, the statements that keep them, and what those do to the tables |
| `session`, `downloads`, `presets`, `library`, `converting` | the state of the application and each of its transitions |
| `playback`, `truncation`, `slider`, `anim`, `morph` | playing, previewing, cutting texts off, and moving things |
| `widget`, `screens`, `settings`, `dialogs`, `demo` | what is on each screen, and a walk through them without anything behind them |
| `style`, `painting`, `routing`, `shell`, `input` | styles, what is painted, which box a pointer meets, the event loop, text fields |
| `pixels`, `svg`, `assets` | pictures, drawings and the files they come from |

Numbers with a fractional part are carried by their bits (`Single`, `Double`): the
library compares them, and leaves arithmetic on them to the program.

## Laws

What holds of several functions together is stated in public proof functions beside
them: that a job whose save succeeds is read back as it was and one whose
save is refused changes nothing, that a cancelled download is not
relabelled by its own kill, that a run that was overtaken is ignored, that a click
meets the topmost box, and so on. Each says in its comment what it states.

## Outside code

Calls into other crates stand behind small wrappers whose contracts are trusted:
cosmic-text's editor in `input`, tiny-skia's premultiplied colours in `pixels`, and
usvg's parser in `svg`. Of the standard library `String::push`, `str::to_lowercase`
and `str::to_uppercase` are trusted in the same way. The comments name the functions
that the wrappers stand for.
