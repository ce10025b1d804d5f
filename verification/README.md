# LEQtion

A sound level meter and real-time analyser: A/C/Z-weighted levels, LEQs,
fractional-octave spectrum, level history and logging, a signal generator and a
dual-channel transfer function.

## Layout

- `src/` — the library, written in Verus. The decisions that do not compute
  in floating point are here with their contracts proved: which audio host and device a request means and
  how devices are described, the generator's noise source and channel routing,
  the delay line and transform sizes of the transfer function, the sample ring
  every transform reads its window from, reconciling LEQs
  and history series by id, bucketing a history for display, the bounded point
  log, the layout of a CSV log, project and show names, ids and paths, the
  newest-first listing order, which calibration each device gets back,
  where the open-project pointer goes when projects and shows are renamed or
  deleted, the metadata and rows of a log, the stream the generator reports,
  and what each pass of the analysis loop reads and sends.
- `tests/` — tests of the library.
- `app/` — the program around it: the floating-point DSP (filters, detectors,
  spectra, LEQ integration, calibration) and the decisions made on its
  floating-point values (such as restoring a show with its generator
  silenced), the audio driver, the files on disk,
  and a command-line meter.
