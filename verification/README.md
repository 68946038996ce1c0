# gsp_ui

The library behind the GSP desktop reader, which reads text aloud (typed,
selected, or recognized on a region of the screen), translating it first
when asked. Each function states its behaviour in `requires`/`ensures`
contracts that Verus proves.

- `src/` — the verified library:
  - `chars`, `textmap`: text building blocks and a small map keyed by text;
  - `textutils`, `replacements`: cleaning text before it is read, and
    pronunciation dictionaries;
  - `config`, `shortcut`: keyboard shortcuts, their text form, their saved
    settings, validation and the hotkey registry;
  - `language_detector`, `translator`, `translation_engine`, `models`:
    language detection, when and how text is translated, language codes,
    model directories and the choice of models;
  - `ocr`, `speech`, `tts`: recognition languages and capture paths, the
    decisions of a reading, and the speech engines' settings.
- `app/` — the desktop application around the library: windows, tray,
  global shortcuts, files, downloads, audio, clipboard, Tesseract and the
  translation models.
- `tests/` — tests of the library on concrete values.
