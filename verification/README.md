# meikipop

Looks up Japanese words anywhere on the screen: the screen is captured, the text on it is
recognised, and the word under the pointer is looked up in a dictionary and shown in a popup.

- `src/` is the library, written in Verus. It holds the data structures, rules and state
  machines, each with a contract that Verus proves.
  - `dictionary/`: deconjugation, look-up, ranking, the cache, and the files a dictionary is
    read from
  - `ocr/`: recognised text, how lines become paragraphs, the text under the pointer, and the
    engines' pre- and postprocessing
  - `pipeline.rs`: what happens between a picture of the screen and a popup
  - `platform/`, `screenshot/`, `input/`: screens, windows, the pointer and their pictures
  - `gui/`: the popup, its focus, the hotkey and the settings
  - `utils/`, `runtime.rs`: mailboxes, queues, events and locks
- `tests/` runs the library on concrete values.
- `app/` is the program: threads, devices, files, the network, and floating point. Numbers
  that are doubles there are bit patterns in the library.

Public functions named `law_*` state properties that relate several functions.
